//! Human-readable rendering of system-call arguments: escaped byte
//! buffers and strings read from guest memory, bounded to a fixed display
//! budget, with a deterministic mode that hides pointers.

use vstd::prelude::*;
use crate::mem::GuestMem;
use crate::types::PluginPtr;

verus! {

/// Upper bound on the rendered payload of a buffer or string.
pub const DISPLAY_LEN: usize = 40;

/// How argument values are rendered.
#[derive(Clone, Copy, Debug, PartialEq, Eq, Structural)]
pub enum FmtOptions {
    /// Show data and addresses.
    Standard,
    /// Hide anything that varies between runs.
    Deterministic,
}

/// One register-sized system-call argument.
#[derive(Clone, Copy, Debug, PartialEq, Eq, Structural)]
pub struct SysCallReg {
    pub val: u64,
}

/// Conversion out of a raw register, for types that render arguments.
pub trait TryFromSyscallReg where Self: Sized {
    fn try_from_reg(reg: SysCallReg) -> Option<Self>;
}

impl TryFromSyscallReg for u64 {
    fn try_from_reg(reg: SysCallReg) -> Option<u64> {
        Some(reg.val)
    }
}

impl TryFromSyscallReg for u32 {
    fn try_from_reg(reg: SysCallReg) -> Option<u32> {
        if reg.val <= u32::MAX as u64 {
            Some(reg.val as u32)
        } else {
            None
        }
    }
}

impl TryFromSyscallReg for i32 {
    fn try_from_reg(reg: SysCallReg) -> Option<i32> {
        if reg.val <= i32::MAX as u64 {
            Some(reg.val as i32)
        } else {
            None
        }
    }
}

impl TryFromSyscallReg for usize {
    fn try_from_reg(reg: SysCallReg) -> Option<usize> {
        if reg.val <= usize::MAX as u64 {
            Some(reg.val as usize)
        } else {
            None
        }
    }
}

/// The escape of one byte, as `read`-style debug output renders it:
/// printable characters stand for themselves, common control characters
/// get backslash escapes, and everything else becomes `\xNN`.
pub open spec fn spec_escape_byte(b: u8) -> Seq<u8> {
    if b == 9 {
        seq![92u8, 116u8]
    } else if b == 13 {
        seq![92u8, 114u8]
    } else if b == 10 {
        seq![92u8, 110u8]
    } else if b == 92 {
        seq![92u8, 92u8]
    } else if b == 39 {
        seq![92u8, 39u8]
    } else if b == 34 {
        seq![92u8, 34u8]
    } else if 0x20 <= b < 0x7f {
        seq![b]
    } else {
        seq![
            92u8,
            120u8,
            spec_hex_digit((b >> 4) as u8),
            spec_hex_digit((b & 0xf) as u8),
        ]
    }
}

/// The lowercase hex digit of a nibble.
pub open spec fn spec_hex_digit(n: u8) -> u8 {
    if n < 10 {
        (48 + n) as u8
    } else {
        (87 + n) as u8
    }
}

pub fn hex_digit(n: u8) -> (r: u8)
    requires
        n < 16,
    ensures
        r == spec_hex_digit(n),
{
    if n < 10 {
        48 + n
    } else {
        87 + n
    }
}

/// Escapes one byte.
pub fn escape_byte(b: u8) -> (r: Vec<u8>)
    ensures
        r@ == spec_escape_byte(b),
{
    let mut out: Vec<u8> = Vec::new();
    if b == 9 {
        out.push(92);
        out.push(116);
    } else if b == 13 {
        out.push(92);
        out.push(114);
    } else if b == 10 {
        out.push(92);
        out.push(110);
    } else if b == 92 {
        out.push(92);
        out.push(92);
    } else if b == 39 {
        out.push(92);
        out.push(39);
    } else if b == 34 {
        out.push(92);
        out.push(34);
    } else if 0x20 <= b && b < 0x7f {
        out.push(b);
    } else {
        proof {
            assert(b >> 4 < 16) by (bit_vector);
            assert(b & 0xf < 16) by (bit_vector);
        }
        out.push(92);
        out.push(120);
        out.push(hex_digit(b >> 4));
        out.push(hex_digit(b & 0xf));
    }
    proof {
        assert(out@ =~= spec_escape_byte(b));
    }
    out
}

/// The escaped prefix that fits the display budget: bytes of `s` from
/// `i` on are appended to `acc` until one would push it past the budget,
/// or a NUL terminator is met when `stop_at_nul` is set. Yields the
/// rendered text, the count of bytes consumed, and whether a NUL ended
/// the walk.
pub open spec fn spec_fmt_take(s: Seq<u8>, i: int, acc: Seq<u8>, stop_at_nul: bool) -> (
    Seq<u8>,
    int,
    bool,
)
    decreases s.len() - i,
{
    if i < 0 || i >= s.len() {
        (acc, i, false)
    } else if stop_at_nul && s[i] == 0 {
        (acc, i, true)
    } else {
        let e = spec_escape_byte(s[i]);
        if acc.len() + e.len() > DISPLAY_LEN {
            (acc, i, false)
        } else {
            spec_fmt_take(s, i + 1, acc + e, stop_at_nul)
        }
    }
}

/// Renders an escaped prefix; shared by the buffer and string formats.
fn fmt_take(s: &Vec<u8>, stop_at_nul: bool) -> (r: (Vec<u8>, usize, bool))
    ensures
        (r.0@, r.1 as int, r.2) == spec_fmt_take(s@, 0, Seq::<u8>::empty(), stop_at_nul),
        r.1 <= s@.len(),
{
    let mut acc: Vec<u8> = Vec::new();
    let mut i: usize = 0;
    loop
        invariant
            i <= s@.len(),
            acc@.len() <= DISPLAY_LEN,
            spec_fmt_take(s@, 0, Seq::<u8>::empty(), stop_at_nul) == spec_fmt_take(
                s@,
                i as int,
                acc@,
                stop_at_nul,
            ),
        ensures
            i <= s@.len(),
            (acc@, i as int, dec_result(s@, i as int, stop_at_nul)) == spec_fmt_take(
                s@,
                0,
                Seq::<u8>::empty(),
                stop_at_nul,
            ),
        decreases s@.len() - i,
    {
        if i >= s.len() {
            proof {
                assert(spec_fmt_take(s@, i as int, acc@, stop_at_nul) == (acc@, i as int, false));
                assert(dec_result(s@, i as int, stop_at_nul) == false);
            }
            break ;
        }
        if stop_at_nul && s[i] == 0 {
            proof {
                assert(spec_fmt_take(s@, i as int, acc@, stop_at_nul) == (acc@, i as int, true));
                assert(dec_result(s@, i as int, stop_at_nul) == true);
            }
            break ;
        }
        let e = escape_byte(s[i]);
        if acc.len() + e.len() > DISPLAY_LEN {
            proof {
                assert(spec_fmt_take(s@, i as int, acc@, stop_at_nul) == (acc@, i as int, false));
                assert(dec_result(s@, i as int, stop_at_nul) == false);
            }
            break ;
        }
        let ghost prev_acc = acc@;
        let mut j: usize = 0;
        while j < e.len()
            invariant
                j <= e@.len(),
                prev_acc.len() + e@.len() <= DISPLAY_LEN,
                acc@ == prev_acc + e@.subrange(0, j as int),
            decreases e@.len() - j,
        {
            proof {
                assert(prev_acc + e@.subrange(0, j as int + 1) =~= (prev_acc + e@.subrange(
                    0,
                    j as int,
                )).push(e@[j as int]));
            }
            acc.push(e[j]);
            j = j + 1;
        }
        proof {
            assert(e@.subrange(0, e@.len() as int) =~= e@);
        }
        i = i + 1;
    }
    (acc, i, {
        let at_nul = stop_at_nul && i < s.len() && s[i] == 0;
        at_nul
    })
}

/// Whether the walk at position `i` stops because of a NUL.
pub open spec fn dec_result(s: Seq<u8>, i: int, stop_at_nul: bool) -> bool {
    stop_at_nul && 0 <= i < s.len() && s[i] == 0
}

/// Renders a byte buffer of requested length `len`, of which `bytes`
/// were actually readable: the escaped text in quotes, with a trailing
/// ellipsis when not all requested bytes are shown. Deterministic mode
/// hides the data entirely.
pub fn fmt_buffer(bytes: &Vec<u8>, len: usize, options: FmtOptions) -> (r: Vec<u8>)
    ensures
        options is Deterministic ==> r@ == spec_pointer_text(),
        options is Standard ==> ({
            let (body, used, _) = spec_fmt_take(bytes@, 0, Seq::<u8>::empty(), false);
            r@ == seq![34u8] + body + seq![34u8] + if len > used {
                seq![46u8, 46u8, 46u8]
            } else {
                Seq::<u8>::empty()
            }
        }),
{
    if matches!(options, FmtOptions::Deterministic) {
        return pointer_text();
    }
    let (body, used, _) = fmt_take(bytes, false);
    let mut out: Vec<u8> = Vec::new();
    out.push(34);
    let mut i: usize = 0;
    while i < body.len()
        invariant
            i <= body@.len(),
            out@ == seq![34u8] + body@.subrange(0, i as int),
        decreases body@.len() - i,
    {
        proof {
            assert(seq![34u8] + body@.subrange(0, i as int + 1) =~= (seq![34u8]
                + body@.subrange(0, i as int)).push(body@[i as int]));
        }
        out.push(body[i]);
        i = i + 1;
    }
    proof {
        assert(body@.subrange(0, body@.len() as int) =~= body@);
    }
    out.push(34);
    if len > used {
        out.push(46);
        out.push(46);
        out.push(46);
        proof {
            assert(out@ =~= seq![34u8] + body@ + seq![34u8] + seq![46u8, 46u8, 46u8]);
        }
    } else {
        proof {
            assert(out@ =~= seq![34u8] + body@ + seq![34u8] + Seq::<u8>::empty());
        }
    }
    out
}

/// Renders a NUL-terminated string from the readable prefix `bytes`: the
/// escaped text up to the terminator in quotes, with a trailing ellipsis
/// when no terminator was reached. Deterministic mode hides the data.
pub fn fmt_string(bytes: &Vec<u8>, options: FmtOptions) -> (r: Vec<u8>)
    ensures
        options is Deterministic ==> r@ == spec_pointer_text(),
        options is Standard ==> ({
            let (body, _, found_nul) = spec_fmt_take(bytes@, 0, Seq::<u8>::empty(), true);
            r@ == seq![34u8] + body + seq![34u8] + if found_nul {
                Seq::<u8>::empty()
            } else {
                seq![46u8, 46u8, 46u8]
            }
        }),
{
    if matches!(options, FmtOptions::Deterministic) {
        return pointer_text();
    }
    let (body, _, found_nul) = fmt_take(bytes, true);
    let mut out: Vec<u8> = Vec::new();
    out.push(34);
    let mut i: usize = 0;
    while i < body.len()
        invariant
            i <= body@.len(),
            out@ == seq![34u8] + body@.subrange(0, i as int),
        decreases body@.len() - i,
    {
        proof {
            assert(seq![34u8] + body@.subrange(0, i as int + 1) =~= (seq![34u8]
                + body@.subrange(0, i as int)).push(body@[i as int]));
        }
        out.push(body[i]);
        i = i + 1;
    }
    proof {
        assert(body@.subrange(0, body@.len() as int) =~= body@);
    }
    out.push(34);
    if !found_nul {
        out.push(46);
        out.push(46);
        out.push(46);
        proof {
            assert(out@ =~= seq![34u8] + body@ + seq![34u8] + seq![46u8, 46u8, 46u8]);
        }
    } else {
        proof {
            assert(out@ =~= seq![34u8] + body@ + seq![34u8] + Seq::<u8>::empty());
        }
    }
    out
}

/// The placeholder shown instead of anything address-dependent.
pub open spec fn spec_pointer_text() -> Seq<u8> {
    seq![60u8, 112u8, 111u8, 105u8, 110u8, 116u8, 101u8, 114u8, 62u8]
}

fn pointer_text() -> (r: Vec<u8>)
    ensures
        r@ == spec_pointer_text(),
{
    let mut out: Vec<u8> = Vec::new();
    out.push(60);
    out.push(112);
    out.push(111);
    out.push(105);
    out.push(110);
    out.push(116);
    out.push(101);
    out.push(114);
    out.push(62);
    proof {
        assert(out@ =~= spec_pointer_text());
    }
    out
}

/// The hexadecimal digits of a value, most significant first.
pub open spec fn spec_hex_text(v: nat) -> Seq<u8>
    decreases v,
{
    if v < 16 {
        seq![spec_hex_digit(v as u8)]
    } else {
        spec_hex_text(v / 16).push(spec_hex_digit((v % 16) as u8))
    }
}

/// The rendering of a raw pointer value, as an address prints: `0x`
/// followed by its hexadecimal digits.
pub open spec fn spec_pointer_value_text(v: nat) -> Seq<u8> {
    seq![48u8, 120u8] + spec_hex_text(v)
}

fn hex_text(v: usize) -> (r: Vec<u8>)
    ensures
        r@ == spec_hex_text(v as nat),
    decreases v,
{
    if v < 16 {
        let mut out: Vec<u8> = Vec::new();
        out.push(hex_digit(v as u8));
        proof {
            assert(out@ =~= spec_hex_text(v as nat));
        }
        out
    } else {
        let mut out = hex_text(v / 16);
        out.push(hex_digit((v % 16) as u8));
        proof {
            assert(out@ =~= spec_hex_text(v as nat));
        }
        out
    }
}

/// Renders a pointer's numeric value, shown for an argument whose memory
/// cannot be read.
fn pointer_value_text(v: usize) -> (r: Vec<u8>)
    ensures
        r@ == spec_pointer_value_text(v as nat),
{
    let mut out: Vec<u8> = Vec::new();
    out.push(48);
    out.push(120);
    let mut rest = hex_text(v);
    out.append(&mut rest);
    proof {
        assert(out@ =~= spec_pointer_value_text(v as nat));
    }
    out
}

/// Reads the longest readable prefix of `[ptr, ptr + len)`.
fn read_prefix(mem: &GuestMem, ptr: PluginPtr, len: usize) -> (r: Option<Vec<u8>>)
    ensures
        match r {
            Some(v) => ptr.val > 0 && ptr.val <= mem.bytes@.len() && ({
                let avail = mem.bytes@.len() - ptr.val;
                let take = if len <= avail {
                    len as int
                } else {
                    avail
                };
                v@ == mem.bytes@.subrange(ptr.val as int, ptr.val as int + take)
            }),
            None => ptr.val == 0 || ptr.val > mem.bytes@.len(),
        },
{
    if ptr.val == 0 || ptr.val > mem.bytes.len() {
        return None;
    }
    let avail = mem.bytes.len() - ptr.val;
    let take = if len <= avail {
        len
    } else {
        avail
    };
    match mem.read(ptr, take) {
        Ok(v) => Some(v),
        Err(_) => None,
    }
}

/// A byte-buffer argument whose length sits in another argument slot.
pub struct SyscallBufferArg<const LEN_INDEX: usize> {
}

impl<const LEN_INDEX: usize> SyscallBufferArg<LEN_INDEX> {
    /// Renders the buffer argument `reg`, taking its length from the
    /// argument at `LEN_INDEX`: the readable prefix escaped and quoted,
    /// the pointer's numeric value when nothing at it can be read, and
    /// the fixed placeholder in deterministic mode.
    pub fn format(reg: SysCallReg, args: &Vec<SysCallReg>, options: FmtOptions, mem: &GuestMem)
        -> (r: Vec<u8>)
        requires
            LEN_INDEX < args@.len(),
        ensures
            options is Deterministic ==> r@ == spec_pointer_text(),
            options is Standard ==> ({
                let len = if args@[LEN_INDEX as int].val <= usize::MAX as u64 {
                    args@[LEN_INDEX as int].val as usize
                } else {
                    0usize
                };
                let p = if reg.val <= usize::MAX as u64 {
                    reg.val as usize
                } else {
                    0usize
                };
                if p == 0 || p > mem.bytes@.len() {
                    r@ == spec_pointer_value_text(p as nat)
                } else {
                    let avail = mem.bytes@.len() - p;
                    let take = if len <= avail {
                        len as int
                    } else {
                        avail
                    };
                    let prefix = mem.bytes@.subrange(p as int, p as int + take);
                    let (body, used, x) = spec_fmt_take(prefix, 0, Seq::<u8>::empty(), false);
                    r@ == seq![34u8] + body + seq![34u8] + if len > used {
                        seq![46u8, 46u8, 46u8]
                    } else {
                        Seq::<u8>::empty()
                    }
                }
            }),
    {
        if matches!(options, FmtOptions::Deterministic) {
            return pointer_text();
        }
        let len: usize = if args[LEN_INDEX].val <= usize::MAX as u64 {
            args[LEN_INDEX].val as usize
        } else {
            0
        };
        let ptr = PluginPtr {
            val: if reg.val <= usize::MAX as u64 {
                reg.val as usize
            } else {
                0
            },
        };
        match read_prefix(mem, ptr, len) {
            Some(bytes) => fmt_buffer(&bytes, len, options),
            None => pointer_value_text(ptr.val),
        }
    }
}

/// A NUL-terminated string argument.
pub struct SyscallStringArg {
}

impl SyscallStringArg {
    /// Renders the string argument `reg`; its length is unknown, so one
    /// byte more than the display budget is read to detect termination.
    /// An unreadable pointer renders as its numeric value, and
    /// deterministic mode as the fixed placeholder.
    pub fn format(reg: SysCallReg, options: FmtOptions, mem: &GuestMem) -> (r: Vec<u8>)
        ensures
            options is Deterministic ==> r@ == spec_pointer_text(),
            options is Standard ==> ({
                let p = if reg.val <= usize::MAX as u64 {
                    reg.val as usize
                } else {
                    0usize
                };
                if p == 0 || p > mem.bytes@.len() {
                    r@ == spec_pointer_value_text(p as nat)
                } else {
                    let avail = mem.bytes@.len() - p;
                    let take = if DISPLAY_LEN + 1 <= avail {
                        (DISPLAY_LEN + 1) as int
                    } else {
                        avail
                    };
                    let prefix = mem.bytes@.subrange(p as int, p as int + take);
                    let (body, x, found_nul) = spec_fmt_take(prefix, 0, Seq::<u8>::empty(), true);
                    r@ == seq![34u8] + body + seq![34u8] + if found_nul {
                        Seq::<u8>::empty()
                    } else {
                        seq![46u8, 46u8, 46u8]
                    }
                }
            }),
    {
        if matches!(options, FmtOptions::Deterministic) {
            return pointer_text();
        }
        let ptr = PluginPtr {
            val: if reg.val <= usize::MAX as u64 {
                reg.val as usize
            } else {
                0
            },
        };
        match read_prefix(mem, ptr, DISPLAY_LEN + 1) {
            Some(bytes) => fmt_string(&bytes, options),
            None => pointer_value_text(ptr.val),
        }
    }
}

/// A socket-address argument whose length sits in another argument slot.
pub struct SyscallSockAddrArg<const LEN_INDEX: usize> {
}

impl<const LEN_INDEX: usize> SyscallSockAddrArg<LEN_INDEX> {
    /// Renders the decoded unix address as a quoted string; an internet
    /// address, which this formatter does not render, keeps the
    /// placeholder, and an unreadable or undecodable argument renders as
    /// the pointer's numeric value.
    pub fn format(reg: SysCallReg, args: &Vec<SysCallReg>, options: FmtOptions, mem: &GuestMem)
        -> (r: Vec<u8>)
        requires
            LEN_INDEX < args@.len(),
        ensures
            options is Deterministic ==> r@ == spec_pointer_text(),
            options is Standard ==> ({
                let len = if args@[LEN_INDEX as int].val <= usize::MAX as u64 {
                    args@[LEN_INDEX as int].val as usize
                } else {
                    0usize
                };
                let p = if reg.val <= usize::MAX as u64 {
                    reg.val as usize
                } else {
                    0usize
                };
                if p == 0 || !mem.spec_valid(p as int, len as int) {
                    r@ == spec_pointer_value_text(p as nat)
                } else {
                    match crate::mem::spec_decode_sockaddr(
                        mem.bytes@.subrange(p as int, p as int + len as int),
                    ) {
                        Some(crate::types::AddrView::Unix { path }) => ({
                            let (body, x, found_nul) = spec_fmt_take(
                                path,
                                0,
                                Seq::<u8>::empty(),
                                true,
                            );
                            r@ == seq![34u8] + body + seq![34u8] + if found_nul {
                                Seq::<u8>::empty()
                            } else {
                                seq![46u8, 46u8, 46u8]
                            }
                        }),
                        Some(crate::types::AddrView::Inet { .. }) => r@ == spec_pointer_text(),
                        None => r@ == spec_pointer_value_text(p as nat),
                    }
                }
            }),
    {
        if matches!(options, FmtOptions::Deterministic) {
            return pointer_text();
        }
        let len: usize = if args[LEN_INDEX].val <= usize::MAX as u64 {
            args[LEN_INDEX].val as usize
        } else {
            0
        };
        let ptr = PluginPtr {
            val: if reg.val <= usize::MAX as u64 {
                reg.val as usize
            } else {
                0
            },
        };
        match crate::mem::read_sockaddr(mem, ptr, len) {
            Ok(Some(crate::types::Sockaddr::Unix { path })) => fmt_string(&path, options),
            Ok(Some(crate::types::Sockaddr::Inet { .. })) => pointer_text(),
            _ => pointer_value_text(ptr.val),
        }
    }
}

} // verus!
