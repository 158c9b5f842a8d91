//! The guest-memory capability: typed reads and writes into the simulated
//! process's address space, with fault detection, and the marshaling of
//! socket addresses and descriptor pairs.

use vstd::prelude::*;
use crate::errno::Errno;
use crate::types::{AddrView, PluginPtr, Sockaddr};

verus! {

/// Tag byte of an encoded unix-domain address.
pub const SOCKADDR_TAG_UNIX: u8 = 1;
/// Tag byte of an encoded internet address.
pub const SOCKADDR_TAG_INET: u8 = 2;

/// Longest unix-domain path accepted, matching `sun_path`.
pub const UNIX_PATH_MAX: usize = 108;

/// The simulated process's memory: a flat byte space. Address 0 is the
/// null pointer; an access is valid iff it is non-null and lies entirely
/// inside the space.
#[derive(Debug, PartialEq, Eq)]
pub struct GuestMem {
    pub bytes: Vec<u8>,
}

impl GuestMem {
    /// Whether the range `[ptr, ptr + len)` can be accessed.
    pub open spec fn spec_valid(self, ptr: int, len: int) -> bool {
        ptr > 0 && len >= 0 && ptr + len <= self.bytes@.len()
    }

    pub fn new(size: usize) -> (r: GuestMem)
        ensures
            r.bytes@.len() == size,
            forall|i: int| 0 <= i < size ==> r.bytes@[i] == 0u8,
    {
        let mut bytes: Vec<u8> = Vec::new();
        let mut i: usize = 0;
        while i < size
            invariant
                i <= size,
                bytes@.len() == i,
                forall|j: int| 0 <= j < i ==> bytes@[j] == 0u8,
            decreases size - i,
        {
            bytes.push(0);
            i = i + 1;
        }
        GuestMem { bytes }
    }

    /// Reads `len` bytes at `ptr`; `EFAULT` exactly when the range is
    /// not accessible.
    pub fn read(&self, ptr: PluginPtr, len: usize) -> (r: Result<Vec<u8>, Errno>)
        ensures
            match r {
                Ok(v) => self.spec_valid(ptr.val as int, len as int)
                    && v@ == self.bytes@.subrange(ptr.val as int, ptr.val as int + len as int),
                Err(e) => e == Errno::EFAULT && !self.spec_valid(ptr.val as int, len as int),
            },
    {
        if ptr.val == 0 || len > self.bytes.len() || ptr.val > self.bytes.len() - len {
            return Err(Errno::EFAULT);
        }
        let mut out: Vec<u8> = Vec::new();
        let mut i: usize = 0;
        while i < len
            invariant
                i <= len,
                ptr.val + len <= self.bytes@.len(),
                ptr.val + len <= usize::MAX,
                out@.len() == i,
                forall|j: int| 0 <= j < i ==> out@[j] == self.bytes@[ptr.val + j],
            decreases len - i,
        {
            out.push(self.bytes[ptr.val + i]);
            i = i + 1;
        }
        proof {
            assert(out@ =~= self.bytes@.subrange(ptr.val as int, ptr.val as int + len as int));
        }
        Ok(out)
    }

    /// Writes `data` at `ptr`; `EFAULT` exactly when the range is not
    /// accessible, in which case memory is unchanged.
    pub fn write(&mut self, ptr: PluginPtr, data: &[u8]) -> (r: Result<(), Errno>)
        ensures
            match r {
                Ok(()) => old(self).spec_valid(ptr.val as int, data@.len() as int)
                    && final(self).bytes@.len() == old(self).bytes@.len()
                    && final(self).bytes@ == old(self).bytes@.subrange(0, ptr.val as int)
                        + data@
                        + old(self).bytes@.subrange(
                            ptr.val as int + data@.len() as int,
                            old(self).bytes@.len() as int,
                        ),
                Err(e) => e == Errno::EFAULT
                    && !old(self).spec_valid(ptr.val as int, data@.len() as int)
                    && *final(self) == *old(self),
            },
    {
        let len = data.len();
        if ptr.val == 0 || len > self.bytes.len() || ptr.val > self.bytes.len() - len {
            return Err(Errno::EFAULT);
        }
        let mut i: usize = 0;
        while i < len
            invariant
                i <= len,
                len == data@.len(),
                ptr.val + len <= self.bytes@.len(),
                ptr.val + len <= usize::MAX,
                self.bytes@.len() == old(self).bytes@.len(),
                ptr.val > 0,
                forall|j: int| 0 <= j < ptr.val ==> self.bytes@[j] == old(self).bytes@[j],
                forall|j: int| 0 <= j < i ==> self.bytes@[ptr.val + j] == data@[j],
                forall|j: int| ptr.val + len <= j < self.bytes@.len()
                    ==> self.bytes@[j] == old(self).bytes@[j],
            decreases len - i,
        {
            let idx = ptr.val + i;
            self.bytes.set(idx, data[i]);
            i = i + 1;
        }
        proof {
            assert(self.bytes@ =~= old(self).bytes@.subrange(0, ptr.val as int)
                + data@
                + old(self).bytes@.subrange(
                    ptr.val as int + len as int,
                    old(self).bytes@.len() as int,
                ));
        }
        Ok(())
    }
}

/// The wire form of a socket address in guest memory: a tag byte followed
/// by the family-specific payload.
pub open spec fn spec_encode_sockaddr(addr: Sockaddr) -> Seq<u8> {
    match addr {
        Sockaddr::Unix { path } => seq![SOCKADDR_TAG_UNIX] + path@,
        Sockaddr::Inet { ip, port } => seq![
            SOCKADDR_TAG_INET,
            (ip & 0xff) as u8,
            ((ip >> 8) & 0xff) as u8,
            ((ip >> 16) & 0xff) as u8,
            ((ip >> 24) & 0xff) as u8,
            (port & 0xff) as u8,
            ((port >> 8) & 0xff) as u8,
        ],
    }
}

/// Encodes a socket address into its wire form.
pub fn encode_sockaddr(addr: &Sockaddr) -> (r: Vec<u8>)
    ensures
        r@ == spec_encode_sockaddr(*addr),
{
    match addr {
        Sockaddr::Unix { path } => {
            let mut out: Vec<u8> = Vec::new();
            out.push(SOCKADDR_TAG_UNIX);
            let mut i: usize = 0;
            while i < path.len()
                invariant
                    i <= path@.len(),
                    out@.len() == 1 + i,
                    out@[0] == SOCKADDR_TAG_UNIX,
                    forall|j: int| 0 <= j < i ==> out@[1 + j] == path@[j],
                decreases path@.len() - i,
            {
                out.push(path[i]);
                i = i + 1;
            }
            proof {
                assert(out@ =~= seq![SOCKADDR_TAG_UNIX] + path@);
            }
            out
        },
        Sockaddr::Inet { ip, port } => {
            let ip = *ip;
            let port = *port;
            let mut out: Vec<u8> = Vec::new();
            out.push(SOCKADDR_TAG_INET);
            out.push((ip & 0xff) as u8);
            out.push(((ip >> 8) & 0xff) as u8);
            out.push(((ip >> 16) & 0xff) as u8);
            out.push(((ip >> 24) & 0xff) as u8);
            out.push((port & 0xff) as u8);
            out.push(((port >> 8) & 0xff) as u8);
            proof {
                assert(out@ =~= spec_encode_sockaddr(Sockaddr::Inet { ip, port }));
            }
            out
        },
    }
}

/// What a well-formed encoded address decodes to, if anything.
pub open spec fn spec_decode_sockaddr(bytes: Seq<u8>) -> Option<AddrView> {
    if bytes.len() >= 1 && bytes[0] == SOCKADDR_TAG_UNIX && bytes.len() <= 1 + UNIX_PATH_MAX {
        Some(AddrView::Unix { path: bytes.subrange(1, bytes.len() as int) })
    } else if bytes.len() == 7 && bytes[0] == SOCKADDR_TAG_INET {
        Some(AddrView::Inet {
            ip: (bytes[1] as u32) | ((bytes[2] as u32) << 8) | ((bytes[3] as u32) << 16)
                | ((bytes[4] as u32) << 24),
            port: (bytes[5] as u16) | ((bytes[6] as u16) << 8),
        })
    } else {
        None
    }
}

/// Decodes a socket address from its wire form.
pub fn decode_sockaddr(bytes: &Vec<u8>) -> (r: Option<Sockaddr>)
    ensures
        match r {
            Some(a) => spec_decode_sockaddr(bytes@) == Some(a@),
            None => spec_decode_sockaddr(bytes@) is None,
        },
{
    if bytes.len() >= 1 && bytes[0] == SOCKADDR_TAG_UNIX && bytes.len() <= 1 + UNIX_PATH_MAX {
        let mut path: Vec<u8> = Vec::new();
        let mut i: usize = 1;
        while i < bytes.len()
            invariant
                1 <= i <= bytes@.len(),
                path@.len() == i - 1,
                forall|j: int| 0 <= j < i - 1 ==> path@[j] == bytes@[1 + j],
            decreases bytes@.len() - i,
        {
            path.push(bytes[i]);
            i = i + 1;
        }
        proof {
            assert(path@ =~= bytes@.subrange(1, bytes@.len() as int));
        }
        Some(Sockaddr::Unix { path })
    } else if bytes.len() == 7 && bytes[0] == SOCKADDR_TAG_INET {
        let ip: u32 = (bytes[1] as u32) | ((bytes[2] as u32) << 8) | ((bytes[3] as u32) << 16)
            | ((bytes[4] as u32) << 24);
        let port: u16 = (bytes[5] as u16) | ((bytes[6] as u16) << 8);
        Some(Sockaddr::Inet { ip, port })
    } else {
        None
    }
}

/// Reads and decodes a socket address from guest memory, as the system
/// calls taking an address argument do. A null pointer yields no address;
/// an inaccessible range is `EFAULT`; an unintelligible encoding is
/// `EINVAL`.
pub fn read_sockaddr(mem: &GuestMem, ptr: PluginPtr, len: usize) -> (r: Result<
    Option<Sockaddr>,
    Errno,
>)
    ensures
        match r {
            Ok(None) => ptr.val == 0,
            Ok(Some(a)) => ptr.val != 0 && mem.spec_valid(ptr.val as int, len as int)
                && spec_decode_sockaddr(
                    mem.bytes@.subrange(ptr.val as int, ptr.val as int + len as int),
                ) == Some(a@),
            Err(Errno::EFAULT) => ptr.val != 0 && !mem.spec_valid(ptr.val as int, len as int),
            Err(Errno::EINVAL) => ptr.val != 0 && mem.spec_valid(ptr.val as int, len as int)
                && spec_decode_sockaddr(
                    mem.bytes@.subrange(ptr.val as int, ptr.val as int + len as int),
                ) is None,
            Err(_) => false,
        },
{
    if ptr.val == 0 {
        return Ok(None);
    }
    let bytes = mem.read(ptr, len)?;
    match decode_sockaddr(&bytes) {
        Some(a) => Ok(Some(a)),
        None => Err(Errno::EINVAL),
    }
}

/// The splice of `data` into `bytes` at `at`.
pub open spec fn spec_splice(bytes: Seq<u8>, at: int, data: Seq<u8>) -> Seq<u8> {
    bytes.subrange(0, at) + data + bytes.subrange(at + data.len(), bytes.len() as int)
}

/// A 32-bit value in its 4-byte little-endian form.
pub open spec fn spec_le32_bytes(v: u32) -> Seq<u8> {
    seq![
        (v & 0xff) as u8,
        ((v >> 8) & 0xff) as u8,
        ((v >> 16) & 0xff) as u8,
        ((v >> 24) & 0xff) as u8,
    ]
}

/// The 32-bit value read from 4 little-endian bytes.
pub open spec fn spec_le32(b: Seq<u8>) -> u32 {
    (b[0] as u32) | ((b[1] as u32) << 8) | ((b[2] as u32) << 16) | ((b[3] as u32) << 24)
}

/// Whether `[ptr, ptr + len)` is addressable in a byte space with these
/// contents: non-null and entirely inside.
pub open spec fn spec_range_ok(bytes: Seq<u8>, ptr: int, len: int) -> bool {
    ptr > 0 && len >= 0 && ptr + len <= bytes.len()
}

/// Whether the write-back of the encoding `enc` can land: the 4-byte
/// length word and the truncated encoding's target range are both
/// addressable.
pub open spec fn spec_sockaddr_write_ok(
    bytes: Seq<u8>,
    enc: Seq<u8>,
    addr_ptr: PluginPtr,
    len_ptr: PluginPtr,
) -> bool {
    let cap = spec_le32(bytes.subrange(len_ptr.val as int, len_ptr.val as int + 4)) as int;
    let written = if cap < enc.len() {
        cap
    } else {
        enc.len() as int
    };
    spec_range_ok(bytes, len_ptr.val as int, 4) && spec_range_ok(
        bytes,
        addr_ptr.val as int,
        written,
    )
}

/// The footprint of a successful address write-back: the encoding `enc`,
/// truncated to the guest's buffer length read at `len_ptr`, lands at
/// `addr_ptr`, and the full encoded length replaces the guest's length.
pub open spec fn spec_sockaddr_written(
    pre: Seq<u8>,
    post: Seq<u8>,
    enc: Seq<u8>,
    addr_ptr: PluginPtr,
    len_ptr: PluginPtr,
) -> bool {
    let cap = spec_le32(pre.subrange(len_ptr.val as int, len_ptr.val as int + 4)) as int;
    let written = if cap < enc.len() {
        cap
    } else {
        enc.len() as int
    };
    post == spec_splice(
        spec_splice(pre, addr_ptr.val as int, enc.subrange(0, written)),
        len_ptr.val as int,
        spec_le32_bytes(enc.len() as u32),
    )
}

/// Writes an encoded socket address into guest memory, as `recvfrom`,
/// `accept`, `getsockname` and `getpeername` do. The guest supplies, at
/// `len_ptr`, a 4-byte little-endian buffer length; the encoding is
/// truncated to it, and the full encoded length is written back.
pub fn write_sockaddr(
    mem: &mut GuestMem,
    addr: &Sockaddr,
    addr_ptr: PluginPtr,
    len_ptr: PluginPtr,
) -> (r: Result<(), Errno>)
    ensures
        r is Err ==> r == Err::<(), Errno>(Errno::EFAULT),
        final(mem).bytes@.len() == old(mem).bytes@.len(),
        // success exactly when both target ranges are addressable
        (r is Ok) == spec_sockaddr_write_ok(
            old(mem).bytes@,
            spec_encode_sockaddr(*addr),
            addr_ptr,
            len_ptr,
        ),
        r is Ok ==> ({
            let enc = spec_encode_sockaddr(*addr);
            let cap = spec_le32(
                old(mem).bytes@.subrange(len_ptr.val as int, len_ptr.val as int + 4),
            ) as int;
            let written = if cap < enc.len() {
                cap
            } else {
                enc.len() as int
            };
            &&& old(mem).spec_valid(len_ptr.val as int, 4)
            &&& old(mem).spec_valid(addr_ptr.val as int, written)
            &&& spec_sockaddr_written(
                old(mem).bytes@,
                final(mem).bytes@,
                enc,
                addr_ptr,
                len_ptr,
            )
        }),
{
    let ghost pre = mem.bytes@;
    let enc = encode_sockaddr(addr);
    // read the guest's buffer length
    let len_bytes = mem.read(len_ptr, 4)?;
    let cap: u32 = (len_bytes[0] as u32) | ((len_bytes[1] as u32) << 8)
        | ((len_bytes[2] as u32) << 16) | ((len_bytes[3] as u32) << 24);
    let written: usize = if (cap as usize) < enc.len() {
        cap as usize
    } else {
        enc.len()
    };
    let mut trunc: Vec<u8> = Vec::new();
    let mut i: usize = 0;
    while i < written
        invariant
            i <= written,
            written <= enc@.len(),
            trunc@.len() == i,
            forall|j: int| 0 <= j < i ==> trunc@[j] == enc@[j],
        decreases written - i,
    {
        trunc.push(enc[i]);
        i = i + 1;
    }
    proof {
        assert(trunc@ =~= enc@.subrange(0, written as int));
        assert(cap == spec_le32(pre.subrange(len_ptr.val as int, len_ptr.val as int + 4)));
    }
    let ghost mid0 = mem.bytes@;
    mem.write(addr_ptr, trunc.as_slice())?;
    let ghost mid = mem.bytes@;
    // write back the full encoded length
    let full: u32 = enc.len() as u32;
    let out: [u8; 4] = [
        (full & 0xff) as u8,
        ((full >> 8) & 0xff) as u8,
        ((full >> 16) & 0xff) as u8,
        ((full >> 24) & 0xff) as u8,
    ];
    mem.write(len_ptr, out.as_slice())?;
    proof {
        assert(out@ =~= spec_le32_bytes(full));
        assert(mid =~= spec_splice(pre, addr_ptr.val as int, enc@.subrange(0, written as int)));
        assert(mem.bytes@ =~= spec_splice(mid, len_ptr.val as int, spec_le32_bytes(full)));
    }
    Ok(())
}

/// The wire form of a descriptor pair: two 4-byte little-endian integers,
/// the layout of the `int sv[2]` argument of `pipe` and `socketpair`.
pub open spec fn spec_fd_pair_bytes(fd1: i32, fd2: i32) -> Seq<u8> {
    seq![
        (fd1 as u32 & 0xff) as u8,
        ((fd1 as u32 >> 8) & 0xff) as u8,
        ((fd1 as u32 >> 16) & 0xff) as u8,
        ((fd1 as u32 >> 24) & 0xff) as u8,
        (fd2 as u32 & 0xff) as u8,
        ((fd2 as u32 >> 8) & 0xff) as u8,
        ((fd2 as u32 >> 16) & 0xff) as u8,
        ((fd2 as u32 >> 24) & 0xff) as u8,
    ]
}

/// Writes a pair of descriptors in their wire form.
pub fn write_fd_pair(mem: &mut GuestMem, ptr: PluginPtr, fd1: i32, fd2: i32) -> (r: Result<
    (),
    Errno,
>)
    ensures
        match r {
            Ok(()) => old(mem).spec_valid(ptr.val as int, 8) && final(mem).bytes@
                == old(mem).bytes@.subrange(0, ptr.val as int) + spec_fd_pair_bytes(fd1, fd2)
                + old(mem).bytes@.subrange(ptr.val as int + 8, old(mem).bytes@.len() as int),
            Err(e) => e == Errno::EFAULT && !old(mem).spec_valid(ptr.val as int, 8)
                && *final(mem) == *old(mem),
        },
        final(mem).bytes@.len() == old(mem).bytes@.len(),
{
    let a = fd1 as u32;
    let b = fd2 as u32;
    let out: [u8; 8] = [
        (a & 0xff) as u8,
        ((a >> 8) & 0xff) as u8,
        ((a >> 16) & 0xff) as u8,
        ((a >> 24) & 0xff) as u8,
        (b & 0xff) as u8,
        ((b >> 8) & 0xff) as u8,
        ((b >> 16) & 0xff) as u8,
        ((b >> 24) & 0xff) as u8,
    ];
    proof {
        assert(out@ =~= spec_fd_pair_bytes(fd1, fd2));
    }
    mem.write(ptr, out.as_slice())
}

} // verus!
