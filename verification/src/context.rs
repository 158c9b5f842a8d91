//! The state a system call operates on: the file table, the descriptor
//! table, the calling thread's blocked condition, the abstract namespace
//! of bound socket names, the scheduler-visible event list and guest
//! memory — together with the well-formedness invariant tying them: every
//! file's reference count covers all references held by descriptors, the
//! blocked condition and accept queues, peer links are mutual, and bound
//! names match the namespace.

use vstd::prelude::*;
use crate::callback::CallbackQueue;
use crate::condition::SysCallCondition;
use crate::counting::{
    count_handles, lemma_count_head, lemma_count_member, lemma_count_nonneg,
    lemma_count_pos_member, lemma_count_push,
};
use crate::descriptor::{CompatFile, Descriptor, DescriptorTable, DESC_TABLE_SIZE};
use crate::errno::Errno;
use crate::file::{File, FileSlot, FileTable, OpenFile, Socket, UnixSocket, FILE_TABLE_SIZE};
use crate::mem::GuestMem;
use crate::types::StateEvent;

verus! {

/// One binding of the abstract unix namespace: a name owned by the socket
/// at `handle`.
#[derive(Clone, Debug, PartialEq, Eq)]
pub struct NsEntry {
    pub name: Vec<u8>,
    pub handle: usize,
}

/// Everything a system call reads and writes.
#[derive(Debug)]
pub struct SyscallContext {
    pub files: FileTable,
    pub descriptors: DescriptorTable,
    /// The blocked condition of the calling thread, if its previous
    /// invocation of a system call suspended.
    pub condition: Option<SysCallCondition>,
    /// Bound unix socket names.
    pub ns: Vec<NsEntry>,
    /// Readiness notifications published to the external scheduler, in
    /// the order they were caused.
    pub events: Vec<StateEvent>,
    /// The guest process's memory.
    pub mem: GuestMem,
}

/// References to `h` held by one descriptor slot.
pub open spec fn desc_ref_one(d: Option<Descriptor>, h: int) -> int {
    match d {
        Some(d) => match d.file {
            CompatFile::New(of) => if of.handle == h {
                1int
            } else {
                0int
            },
            CompatFile::Legacy(_) => 0int,
        },
        None => 0int,
    }
}

pub open spec fn desc_refs_upto(t: Seq<Option<Descriptor>>, h: int, n: int) -> int
    decreases n,
{
    if n <= 0 {
        0
    } else {
        desc_refs_upto(t, h, n - 1) + desc_ref_one(t[n - 1], h)
    }
}

/// References to `h` held by the descriptor table.
pub open spec fn desc_refs(t: Seq<Option<Descriptor>>, h: int) -> int {
    desc_refs_upto(t, h, t.len() as int)
}

/// The accept queue of one file slot; empty for anything that is not a
/// listening unix socket.
pub open spec fn slot_queue(s: Option<FileSlot>) -> Seq<usize> {
    match s {
        Some(slot) => slot.file.spec_queue(),
        None => Seq::empty(),
    }
}

pub open spec fn queue_refs_upto(f: Seq<Option<FileSlot>>, h: int, n: int) -> int
    decreases n,
{
    if n <= 0 {
        0
    } else {
        queue_refs_upto(f, h, n - 1) + count_handles(slot_queue(f[n - 1]), h)
    }
}

/// References to `h` held by accept queues anywhere in the file table.
pub open spec fn queue_refs(f: Seq<Option<FileSlot>>, h: int) -> int {
    queue_refs_upto(f, h, f.len() as int)
}

/// References to `h` held by the thread's blocked condition.
pub open spec fn cond_ref_one(c: Option<SysCallCondition>, h: int) -> int {
    match c {
        Some(c) => match c.active_file {
            Some(of) => if of.handle == h {
                1int
            } else {
                0int
            },
            None => 0int,
        },
        None => 0int,
    }
}

// ---- lemmas about the counts ----

pub proof fn lemma_desc_refs_upto_nonneg(t: Seq<Option<Descriptor>>, h: int, n: int)
    ensures
        desc_refs_upto(t, h, n) >= 0,
    decreases n,
{
    if n > 0 {
        lemma_desc_refs_upto_nonneg(t, h, n - 1);
    }
}

pub proof fn lemma_desc_refs_upto_update(t: Seq<Option<Descriptor>>, i: int, v: Option<Descriptor>, h: int, n: int)
    requires
        0 <= i < t.len(),
        n <= t.len(),
    ensures
        desc_refs_upto(t.update(i, v), h, n) == desc_refs_upto(t, h, n)
            + if i < n { desc_ref_one(v, h) - desc_ref_one(t[i], h) } else { 0int },
    decreases n,
{
    if n > 0 {
        lemma_desc_refs_upto_update(t, i, v, h, n - 1);
    }
}

/// Updating one descriptor slot shifts each count by the local difference.
pub proof fn lemma_desc_refs_update(t: Seq<Option<Descriptor>>, i: int, v: Option<Descriptor>, h: int)
    requires
        0 <= i < t.len(),
    ensures
        desc_refs(t.update(i, v), h) == desc_refs(t, h) + desc_ref_one(v, h) - desc_ref_one(t[i], h),
{
    lemma_desc_refs_upto_update(t, i, v, h, t.len() as int);
}

pub proof fn lemma_desc_refs_upto_member(t: Seq<Option<Descriptor>>, i: int, h: int, n: int)
    requires
        0 <= i < n <= t.len(),
    ensures
        desc_refs_upto(t, h, n) >= desc_ref_one(t[i], h),
    decreases n,
{
    lemma_desc_refs_upto_nonneg(t, h, i);
    if i < n - 1 {
        lemma_desc_refs_upto_member(t, i, h, n - 1);
    } else {
        lemma_desc_refs_upto_nonneg(t, h, n - 1);
    }
}

/// A descriptor slot referencing `h` forces a positive table-wide count.
pub proof fn lemma_desc_refs_member(t: Seq<Option<Descriptor>>, i: int, h: int)
    requires
        0 <= i < t.len(),
    ensures
        desc_refs(t, h) >= desc_ref_one(t[i], h),
{
    lemma_desc_refs_upto_member(t, i, h, t.len() as int);
}

pub proof fn lemma_desc_refs_upto_zero(t: Seq<Option<Descriptor>>, h: int, n: int)
    requires
        forall|k: int| 0 <= k < n ==> desc_ref_one(#[trigger] t[k], h) == 0,
    ensures
        desc_refs_upto(t, h, n) == 0,
    decreases n,
{
    if n > 0 {
        lemma_desc_refs_upto_zero(t, h, n - 1);
    }
}

pub proof fn lemma_queue_refs_upto_nonneg(f: Seq<Option<FileSlot>>, h: int, n: int)
    ensures
        queue_refs_upto(f, h, n) >= 0,
    decreases n,
{
    if n > 0 {
        lemma_queue_refs_upto_nonneg(f, h, n - 1);
        lemma_count_nonneg(slot_queue(f[n - 1]), h);
    }
}

pub proof fn lemma_queue_refs_upto_update(f: Seq<Option<FileSlot>>, i: int, v: Option<FileSlot>, h: int, n: int)
    requires
        0 <= i < f.len(),
        n <= f.len(),
    ensures
        queue_refs_upto(f.update(i, v), h, n) == queue_refs_upto(f, h, n)
            + if i < n {
                count_handles(slot_queue(v), h) - count_handles(slot_queue(f[i]), h)
            } else {
                0int
            },
    decreases n,
{
    if n > 0 {
        lemma_queue_refs_upto_update(f, i, v, h, n - 1);
    }
}

/// Updating one file slot shifts each queue count by the local difference.
pub proof fn lemma_queue_refs_update(f: Seq<Option<FileSlot>>, i: int, v: Option<FileSlot>, h: int)
    requires
        0 <= i < f.len(),
    ensures
        queue_refs(f.update(i, v), h) == queue_refs(f, h) + count_handles(slot_queue(v), h)
            - count_handles(slot_queue(f[i]), h),
{
    lemma_queue_refs_upto_update(f, i, v, h, f.len() as int);
}

pub proof fn lemma_queue_refs_upto_member(f: Seq<Option<FileSlot>>, i: int, h: int, n: int)
    requires
        0 <= i < n <= f.len(),
    ensures
        queue_refs_upto(f, h, n) >= count_handles(slot_queue(f[i]), h),
    decreases n,
{
    lemma_queue_refs_upto_nonneg(f, h, i);
    if i < n - 1 {
        lemma_queue_refs_upto_member(f, i, h, n - 1);
        lemma_count_nonneg(slot_queue(f[n - 1]), h);
    } else {
        lemma_queue_refs_upto_nonneg(f, h, n - 1);
    }
}

/// A queue occurrence of `h` forces a positive table-wide queue count.
pub proof fn lemma_queue_refs_member(f: Seq<Option<FileSlot>>, i: int, h: int)
    requires
        0 <= i < f.len(),
    ensures
        queue_refs(f, h) >= count_handles(slot_queue(f[i]), h),
{
    lemma_queue_refs_upto_member(f, i, h, f.len() as int);
}

pub proof fn lemma_queue_refs_upto_zero(f: Seq<Option<FileSlot>>, h: int, n: int)
    requires
        forall|k: int| 0 <= k < n ==> count_handles(slot_queue(#[trigger] f[k]), h) == 0,
    ensures
        queue_refs_upto(f, h, n) == 0,
    decreases n,
{
    if n > 0 {
        lemma_queue_refs_upto_zero(f, h, n - 1);
    }
}

impl SyscallContext {
    /// All references to `h` that the invariant accounts for.
    pub open spec fn total_refs(self, h: int) -> int {
        desc_refs(self.descriptors.slots@, h) + queue_refs(self.files.slots@, h)
            + cond_ref_one(self.condition, h)
    }

    /// The peer handle recorded in slot `h`, if any.
    pub open spec fn spec_peer_of(self, h: int) -> Option<usize> {
        match self.files.slots@[h] {
            Some(slot) => slot.file.spec_peer(),
            None => None,
        }
    }

    /// Mutual peer links: a recorded peer is a live object of a matching
    /// kind whose own peer link points back.
    pub open spec fn peer_clause(self, h: int) -> bool {
        match self.files.slots@[h] {
            Some(slot) => match slot.file.spec_peer() {
                Some(p) => {
                    &&& 0 <= p < self.files.slots@.len()
                    &&& p != h
                    &&& match self.files.slots@[p as int] {
                        Some(pslot) => pair_shape_ok(slot.file, pslot.file)
                            && pslot.file.spec_peer() == Some(h as usize),
                        None => false,
                    }
                },
                None => true,
            },
            None => true,
        }
    }

    /// Accept-queue entries are live, not-yet-shared unix sockets that are
    /// not themselves listening; the queue reference is their only one.
    pub open spec fn queue_clause(self, h: int) -> bool {
        let q = slot_queue(self.files.slots@[h]);
        forall|i: int| 0 <= i < q.len() ==> {
            let ch = #[trigger] q[i] as int;
            &&& 0 <= ch < self.files.slots@.len()
            &&& ch != h
            &&& match self.files.slots@[ch] {
                Some(cs) => cs.refcount == 1 && match cs.file {
                    File::Socket(Socket::Unix(u)) => u.listen is None && u.bound is None,
                    _ => false,
                },
                None => false,
            }
        }
    }

    /// The per-slot invariant.
    pub open spec fn slot_inv(self, h: int) -> bool {
        match self.files.slots@[h] {
            Some(slot) => {
                &&& slot.refcount >= 1
            &&& slot.refcount >= self.total_refs(h)
                &&& slot.file.local_wf()
                &&& self.peer_clause(h)
                &&& self.queue_clause(h)
            },
            None => self.total_refs(h) == 0,
        }
    }

    /// Descriptors bind handles inside the file table.
    pub open spec fn desc_inv(self, i: int) -> bool {
        desc_handle_ok(self.descriptors.slots@[i])
    }

    /// The blocked condition watches and holds handles inside the file
    /// table.
    pub open spec fn cond_inv(self) -> bool {
        match self.condition {
            Some(c) => c.trigger.file < FILE_TABLE_SIZE && match c.active_file {
                Some(of) => of.handle < FILE_TABLE_SIZE,
                None => true,
            },
            None => true,
        }
    }

    /// A namespace entry names a live unix socket bound to that name.
    pub open spec fn ns_entry_inv(self, i: int) -> bool {
        let e = self.ns@[i];
        &&& e.handle < FILE_TABLE_SIZE
        &&& match self.files.slots@[e.handle as int] {
            Some(slot) => match slot.file {
                File::Socket(Socket::Unix(u)) => match u.bound {
                    Some(n) => n@ == e.name@,
                    None => false,
                },
                _ => false,
            },
            None => false,
        }
    }

    /// The well-formedness invariant of the whole context.
    pub open spec fn inv(self) -> bool {
        &&& self.files.slots@.len() == FILE_TABLE_SIZE
        &&& self.descriptors.slots@.len() == DESC_TABLE_SIZE
        &&& forall|h: int| 0 <= h < FILE_TABLE_SIZE ==> #[trigger] self.slot_inv(h)
        &&& forall|i: int| 0 <= i < DESC_TABLE_SIZE ==> #[trigger] self.desc_inv(i)
        &&& self.cond_inv()
        &&& forall|i: int| 0 <= i < self.ns@.len() ==> #[trigger] self.ns_entry_inv(i)
        &&& forall|i: int, j: int|
            0 <= i < self.ns@.len() && 0 <= j < self.ns@.len() && i != j
                ==> (#[trigger] self.ns@[i]).name@ != (#[trigger] self.ns@[j]).name@
    }

    /// A fresh context with the given amount of guest memory and no open
    /// files.
    pub fn new(mem_size: usize) -> (r: SyscallContext)
        ensures
            r.inv(),
            r.condition is None,
            r.ns@.len() == 0,
            r.events@.len() == 0,
            r.mem.bytes@.len() == mem_size,
            forall|h: int| 0 <= h < FILE_TABLE_SIZE ==> r.files.slots@[h] is None,
            forall|i: int| 0 <= i < DESC_TABLE_SIZE ==> r.descriptors.slots@[i] is None,
    {
        let ctx = SyscallContext {
            files: FileTable::new(),
            descriptors: DescriptorTable::new(),
            condition: None,
            ns: Vec::new(),
            events: Vec::new(),
            mem: GuestMem::new(mem_size),
        };
        proof {
            assert forall|h: int| 0 <= h < FILE_TABLE_SIZE implies #[trigger] ctx.slot_inv(h) by {
                assert forall|k: int| 0 <= k < DESC_TABLE_SIZE
                    implies desc_ref_one(#[trigger] ctx.descriptors.slots@[k], h) == 0 by {}
                lemma_desc_refs_upto_zero(ctx.descriptors.slots@, h, DESC_TABLE_SIZE as int);
                assert forall|k: int| 0 <= k < FILE_TABLE_SIZE
                    implies count_handles(slot_queue(#[trigger] ctx.files.slots@[k]), h) == 0 by {}
                lemma_queue_refs_upto_zero(ctx.files.slots@, h, FILE_TABLE_SIZE as int);
            }
        }
        ctx
    }
}

/// Whether `b` is of the same kind as `a` for peering purposes: same pipe
/// end, same socket type.
pub open spec fn same_kind(a: File, b: File) -> bool {
    match (a, b) {
        (File::Pipe(pa), File::Pipe(pb)) => pa.mode == pb.mode,
        (File::Socket(Socket::Unix(sa)), File::Socket(Socket::Unix(sb))) => sa.stype == sb.stype,
        (File::Socket(Socket::Inet(_)), File::Socket(Socket::Inet(_))) => true,
        _ => false,
    }
}

/// Whether the file is a listening unix socket.
pub open spec fn is_listening(f: File) -> bool {
    match f {
        File::Socket(Socket::Unix(u)) => u.listen is Some,
        _ => false,
    }
}

/// Whether two files may be each other's peer: the two ends of one pipe,
/// or two unix sockets of the same kind.
pub open spec fn pair_shape_ok(a: File, b: File) -> bool {
    match (a, b) {
        (File::Pipe(pa), File::Pipe(pb)) => pa.mode != pb.mode,
        (File::Socket(Socket::Unix(sa)), File::Socket(Socket::Unix(sb))) => sa.stype == sb.stype,
        _ => false,
    }
}

/// Whether a descriptor's native handle lies inside the file table.
pub open spec fn desc_handle_ok(d: Option<Descriptor>) -> bool {
    match d {
        Some(d) => match d.file {
            CompatFile::New(of) => of.handle < FILE_TABLE_SIZE,
            CompatFile::Legacy(_) => true,
        },
        None => true,
    }
}

/// A handle bound by a live descriptor denotes a live file slot: the
/// descriptor's reference makes the slot's total positive, so its slot
/// invariant — object present, payload well-formed — is available.
pub proof fn lemma_desc_handle_live(ctx: SyscallContext, fd: int, h: int)
    requires
        ctx.inv(),
        0 <= fd < DESC_TABLE_SIZE,
        0 <= h <= usize::MAX,
        match ctx.descriptors.slots@[fd] {
            Some(d) => d.file == CompatFile::New(OpenFile { handle: h as usize }),
            None => false,
        },
    ensures
        h < FILE_TABLE_SIZE,
        desc_refs(ctx.descriptors.slots@, h) >= 1,
        ctx.total_refs(h) >= 1,
        ctx.slot_inv(h),
        ctx.files.slots@[h] is Some,
{
    assert(ctx.desc_inv(fd));
    lemma_desc_refs_member(ctx.descriptors.slots@, fd, h);
    lemma_queue_refs_upto_nonneg(ctx.files.slots@, h, ctx.files.slots@.len() as int);
    lemma_desc_refs_upto_nonneg(ctx.descriptors.slots@, h, ctx.descriptors.slots@.len() as int);
    assert(ctx.total_refs(h) >= 1);
    assert(ctx.slot_inv(h));
}

/// A descriptor-held reference beside the caller's surplus unit pins the
/// slot's count at two or more, so giving the surplus back can only
/// decrement the count — never tear the object down.
pub proof fn lemma_surplus_and_desc_keep_two(ctx: SyscallContext, h: int)
    requires
        ctx.inv(),
        0 <= h < FILE_TABLE_SIZE,
        ctx.files.slots@[h] is Some,
        ctx.has_surplus(h, 1),
        desc_refs(ctx.descriptors.slots@, h) >= 1,
    ensures
        (ctx.files.slots@[h]->0).refcount >= 2,
{
    lemma_queue_refs_upto_nonneg(ctx.files.slots@, h, ctx.files.slots@.len() as int);
    assert(ctx.total_refs(h) >= 1);
}

/// Replacing the object at `h` by one of the same shape, with the same
/// peer link, queue, bound name and reference count, preserves the whole
/// invariant and every reference total.
pub proof fn lemma_inv_payload_update(
    pre: SyscallContext,
    post: SyscallContext,
    h: int,
    oldslot: FileSlot,
    newslot: FileSlot,
)
    requires
        pre.inv(),
        0 <= h < FILE_TABLE_SIZE,
        pre.files.slots@[h] == Some(oldslot),
        newslot.refcount >= 1,
        newslot.refcount >= pre.total_refs(h),
        newslot.refcount == oldslot.refcount || queue_refs(pre.files.slots@, h) == 0,
        same_kind(oldslot.file, newslot.file),
        is_listening(newslot.file) == is_listening(oldslot.file) || queue_refs(
            pre.files.slots@,
            h,
        ) == 0,
        newslot.file.spec_peer() == oldslot.file.spec_peer(),
        newslot.file.spec_queue() == oldslot.file.spec_queue(),
        newslot.file.spec_bound() == oldslot.file.spec_bound(),
        newslot.file.local_wf(),
        post.files.slots@ == pre.files.slots@.update(h, Some(newslot)),
        post.descriptors == pre.descriptors,
        post.condition == pre.condition,
        post.ns == pre.ns,
    ensures
        post.inv(),
        forall|k: int| #[trigger] post.total_refs(k) == pre.total_refs(k),
{
    assert forall|k: int| #[trigger] post.total_refs(k) == pre.total_refs(k) by {
        lemma_queue_refs_update(pre.files.slots@, h, Some(newslot), k);
    }
    assert forall|g: int| 0 <= g < FILE_TABLE_SIZE implies #[trigger] post.slot_inv(g) by {
        assert(pre.slot_inv(g));
        assert(post.total_refs(g) == pre.total_refs(g));
        if g == h {
            assert(post.peer_clause(h)) by {
                if newslot.file.spec_peer() is Some {
                    let p = newslot.file.spec_peer()->0 as int;
                    assert(pre.peer_clause(h));
                    assert(0 <= p < FILE_TABLE_SIZE && p != h);
                    assert(post.files.slots@[p] == pre.files.slots@[p]);
                    let pslot = pre.files.slots@[p]->0;
                    assert(pair_shape_ok(oldslot.file, pslot.file));
                    assert(pair_shape_ok(newslot.file, pslot.file));
                }
            }
            assert(post.queue_clause(h)) by {
                let q = slot_queue(post.files.slots@[h]);
                assert(q == slot_queue(pre.files.slots@[h]));
                assert forall|i: int| 0 <= i < q.len() implies {
                    let ch = #[trigger] q[i] as int;
                    &&& 0 <= ch < post.files.slots@.len()
                    &&& ch != h
                    &&& match post.files.slots@[ch] {
                        Some(cs) => cs.refcount == 1 && match cs.file {
                            File::Socket(Socket::Unix(u)) => u.listen is None && u.bound is None,
                            _ => false,
                        },
                        None => false,
                    }
                } by {
                    assert(pre.queue_clause(h));
                    let ch = q[i] as int;
                    assert(post.files.slots@[ch] == pre.files.slots@[ch]);
                }
            }
        } else {
            assert(post.files.slots@[g] == pre.files.slots@[g]);
            assert(post.peer_clause(g)) by {
                if pre.spec_peer_of(g) is Some {
                    let p = pre.spec_peer_of(g)->0 as int;
                    if p != h {
                        assert(post.files.slots@[p] == pre.files.slots@[p]);
                    } else {
                        let gslot = pre.files.slots@[g]->0;
                        assert(pair_shape_ok(gslot.file, oldslot.file));
                        assert(pair_shape_ok(gslot.file, newslot.file));
                        assert(newslot.file.spec_peer() == oldslot.file.spec_peer());
                    }
                }
            }
            assert(post.queue_clause(g)) by {
                let q = slot_queue(post.files.slots@[g]);
                assert(q == slot_queue(pre.files.slots@[g]));
                assert forall|i: int| 0 <= i < q.len() implies {
                    let ch = #[trigger] q[i] as int;
                    &&& 0 <= ch < post.files.slots@.len()
                    &&& ch != g
                    &&& match post.files.slots@[ch] {
                        Some(cs) => cs.refcount == 1 && match cs.file {
                            File::Socket(Socket::Unix(u)) => u.listen is None && u.bound is None,
                            _ => false,
                        },
                        None => false,
                    }
                } by {
                    assert(pre.queue_clause(g));
                    let ch = q[i] as int;
                    if ch != h {
                        assert(post.files.slots@[ch] == pre.files.slots@[ch]);
                    } else {
                        if newslot.refcount != oldslot.refcount
                            || is_listening(newslot.file) != is_listening(oldslot.file) {
                            lemma_count_member(q, i);
                            lemma_queue_refs_member(pre.files.slots@, g, h);
                            lemma_count_nonneg(q, h);
                            assert(false);
                        }
                    }
                }
            }
        }
    }
    assert forall|i: int| 0 <= i < post.ns@.len() implies #[trigger] post.ns_entry_inv(i) by {
        assert(pre.ns_entry_inv(i));
        let e = post.ns@[i];
        if e.handle as int != h {
            assert(post.files.slots@[e.handle as int] == pre.files.slots@[e.handle as int]);
        }
    }
    assert forall|i: int| 0 <= i < DESC_TABLE_SIZE implies #[trigger] post.desc_inv(i) by {
        assert(pre.desc_inv(i));
    }
}

pub proof fn lemma_queue_refs_upto_pos_member(f: Seq<Option<FileSlot>>, h: int, n: int)
    requires
        n <= f.len(),
        queue_refs_upto(f, h, n) > 0,
    ensures
        exists|i: int| 0 <= i < n && count_handles(slot_queue(#[trigger] f[i]), h) > 0,
    decreases n,
{
    if n > 0 {
        if count_handles(slot_queue(f[n - 1]), h) > 0 {
        } else {
            lemma_count_nonneg(slot_queue(f[n - 1]), h);
            lemma_queue_refs_upto_pos_member(f, h, n - 1);
        }
    }
}

impl SyscallContext {
    /// Whether the file at `h` is live with at least `k` reference-count
    /// units beyond what descriptors, the condition and queues account for
    /// (the units standing for `OpenFile` values held by the caller).
    pub open spec fn has_surplus(self, h: int, k: int) -> bool {
        match self.files.slots@[h] {
            Some(s) => s.refcount >= self.total_refs(h) + k,
            None => false,
        }
    }

    /// Everything but the file table equal, and the file table equal off
    /// the given handle.
    pub open spec fn same_except_file(self, post: SyscallContext, h: int, s: Option<FileSlot>) -> bool {
        &&& post.files.slots@ == self.files.slots@.update(h, s)
        &&& post.descriptors == self.descriptors
        &&& post.condition == self.condition
        &&& post.ns == self.ns
        &&& post.events == self.events
        &&& post.mem == self.mem
    }
}

/// A file that some descriptor or the blocked condition references, or
/// whose count carries surplus units, sits in no accept queue.
pub proof fn lemma_referenced_not_queued(ctx: SyscallContext, h: int)
    requires
        ctx.inv(),
        0 <= h < FILE_TABLE_SIZE,
        ctx.files.slots@[h] is Some,
        desc_refs(ctx.descriptors.slots@, h) + cond_ref_one(ctx.condition, h) >= 1
            || ctx.has_surplus(h, 1),
    ensures
        queue_refs(ctx.files.slots@, h) == 0,
{
    lemma_queue_refs_upto_nonneg(ctx.files.slots@, h, ctx.files.slots@.len() as int);
    if queue_refs(ctx.files.slots@, h) > 0 {
        lemma_queue_refs_upto_pos_member(ctx.files.slots@, h, ctx.files.slots@.len() as int);
        let g = choose|g: int|
            0 <= g < ctx.files.slots@.len()
                && count_handles(slot_queue(#[trigger] ctx.files.slots@[g]), h) > 0;
        lemma_count_pos_member(slot_queue(ctx.files.slots@[g]), h);
        let i = choose|i: int|
            0 <= i < slot_queue(ctx.files.slots@[g]).len()
                && slot_queue(ctx.files.slots@[g])[i] == h;
        assert(ctx.slot_inv(g));
        assert(ctx.queue_clause(g));
        let q = slot_queue(ctx.files.slots@[g]);
        assert(q[i] == h);
        // the queue clause pins the child's reference count at one
        assert(match ctx.files.slots@[h] {
            Some(cs) => cs.refcount == 1,
            None => false,
        });
        // yet the hypothesis forces at least two reference units
        assert(ctx.slot_inv(h));
        lemma_desc_refs_upto_nonneg(ctx.descriptors.slots@, h, ctx.descriptors.slots@.len() as int);
        lemma_queue_refs_member(ctx.files.slots@, g, h);
        assert(false);
    }
}

/// Updating one descriptor slot preserves the invariant, provided a new
/// native reference is covered either by replacing a reference to the same
/// handle or by a surplus unit the caller holds.
pub proof fn lemma_inv_desc_update(
    pre: SyscallContext,
    post: SyscallContext,
    i: int,
    v: Option<Descriptor>,
)
    requires
        pre.inv(),
        0 <= i < DESC_TABLE_SIZE,
        post.descriptors.slots@ == pre.descriptors.slots@.update(i, v),
        post.files == pre.files,
        post.condition == pre.condition,
        post.ns == pre.ns,
        desc_handle_ok(v),
        match v {
            Some(d) => match d.file {
                CompatFile::New(of) => desc_ref_one(pre.descriptors.slots@[i], of.handle as int)
                    == 1 || pre.has_surplus(of.handle as int, 1),
                CompatFile::Legacy(_) => true,
            },
            None => true,
        },
    ensures
        post.inv(),
        forall|k: int| #[trigger] post.total_refs(k) == pre.total_refs(k) + desc_ref_one(v, k)
            - desc_ref_one(pre.descriptors.slots@[i], k),
{
    assert forall|k: int| #[trigger] post.total_refs(k) == pre.total_refs(k) + desc_ref_one(v, k)
        - desc_ref_one(pre.descriptors.slots@[i], k) by {
        lemma_desc_refs_update(pre.descriptors.slots@, i, v, k);
    }
    assert forall|h: int| 0 <= h < FILE_TABLE_SIZE implies #[trigger] post.slot_inv(h) by {
        assert(pre.slot_inv(h));
        let delta = desc_ref_one(v, h) - desc_ref_one(pre.descriptors.slots@[i], h);
        match post.files.slots@[h] {
            Some(slot) => {
                if delta > 0 {
                    // a new reference to h appeared: the side condition covers it
                    assert(desc_ref_one(v, h) == 1);
                    assert(desc_ref_one(pre.descriptors.slots@[i], h) == 0);
                    assert(pre.has_surplus(h, 1));
                }
                assert(slot.refcount >= post.total_refs(h));
                assert(post.peer_clause(h) == pre.peer_clause(h));
                assert(post.queue_clause(h) == pre.queue_clause(h));
            },
            None => {
                assert(pre.total_refs(h) == 0);
                lemma_desc_refs_member(pre.descriptors.slots@, i, h);
                lemma_queue_refs_upto_nonneg(pre.files.slots@, h, pre.files.slots@.len() as int);
                lemma_desc_refs_upto_nonneg(
                    pre.descriptors.slots@,
                    h,
                    pre.descriptors.slots@.len() as int,
                );
                assert(desc_ref_one(pre.descriptors.slots@[i], h) == 0);
                assert(desc_ref_one(v, h) == 0);
            },
        }
    }
    assert forall|k: int| 0 <= k < DESC_TABLE_SIZE implies #[trigger] post.desc_inv(k) by {
        assert(pre.desc_inv(k));
        if k != i {
            assert(post.descriptors.slots@[k] == pre.descriptors.slots@[k]);
        }
    }
    assert forall|k: int| 0 <= k < post.ns@.len() implies #[trigger] post.ns_entry_inv(k) by {
        assert(pre.ns_entry_inv(k));
    }
}

/// Changing the blocked condition preserves the invariant, provided a new
/// active-file reference is covered by a surplus unit or replaces one to
/// the same handle.
pub proof fn lemma_inv_cond_update(
    pre: SyscallContext,
    post: SyscallContext,
    c: Option<SysCallCondition>,
)
    requires
        pre.inv(),
        post.condition == c,
        post.files == pre.files,
        post.descriptors == pre.descriptors,
        post.ns == pre.ns,
        match c {
            Some(cc) => cc.trigger.file < FILE_TABLE_SIZE && match cc.active_file {
                Some(of) => of.handle < FILE_TABLE_SIZE
                    && (cond_ref_one(pre.condition, of.handle as int) == 1
                        || pre.has_surplus(of.handle as int, 1)),
                None => true,
            },
            None => true,
        },
    ensures
        post.inv(),
        forall|k: int| #[trigger] post.total_refs(k) == pre.total_refs(k) + cond_ref_one(c, k)
            - cond_ref_one(pre.condition, k),
{
    assert forall|h: int| 0 <= h < FILE_TABLE_SIZE implies #[trigger] post.slot_inv(h) by {
        assert(pre.slot_inv(h));
        let delta = cond_ref_one(c, h) - cond_ref_one(pre.condition, h);
        match post.files.slots@[h] {
            Some(slot) => {
                if delta > 0 {
                    assert(cond_ref_one(c, h) == 1);
                    assert(pre.has_surplus(h, 1));
                }
                assert(slot.refcount >= post.total_refs(h));
                assert(post.peer_clause(h) == pre.peer_clause(h));
                assert(post.queue_clause(h) == pre.queue_clause(h));
            },
            None => {
                assert(pre.total_refs(h) == 0);
                lemma_queue_refs_upto_nonneg(pre.files.slots@, h, pre.files.slots@.len() as int);
                lemma_desc_refs_upto_nonneg(
                    pre.descriptors.slots@,
                    h,
                    pre.descriptors.slots@.len() as int,
                );
                assert(cond_ref_one(pre.condition, h) == 0);
                assert(cond_ref_one(c, h) == 0);
            },
        }
    }
    assert forall|i: int| 0 <= i < DESC_TABLE_SIZE implies #[trigger] post.desc_inv(i) by {
        assert(pre.desc_inv(i));
    }
    assert forall|i: int| 0 <= i < post.ns@.len() implies #[trigger] post.ns_entry_inv(i) by {
        assert(pre.ns_entry_inv(i));
    }
}

impl SyscallContext {
    /// Duplicates a reference to the live file at `h`: one more count unit,
    /// handed back as a fresh `OpenFile`. The caller must already hold a
    /// reference (a descriptor, the condition, or a surplus unit), which
    /// also rules out accept-queue children. Fails only if the count is
    /// saturated.
    pub fn clone_open_file(&mut self, h: usize) -> (r: Result<OpenFile, Errno>)
        requires
            old(self).inv(),
            h < FILE_TABLE_SIZE,
            old(self).files.slots@[h as int] is Some,
            desc_refs(old(self).descriptors.slots@, h as int)
                + cond_ref_one(old(self).condition, h as int) >= 1
                || old(self).has_surplus(h as int, 1),
        ensures
            final(self).inv(),
            match r {
                Ok(of) => {
                    let s = old(self).files.slots@[h as int]->0;
                    &&& of.handle == h
                    &&& old(self).same_except_file(
                        *final(self),
                        h as int,
                        Some(FileSlot { refcount: (s.refcount + 1) as usize, file: s.file }),
                    )
                    &&& final(self).has_surplus(h as int, 1)
                    &&& forall|k: int| #[trigger] final(self).total_refs(k)
                        == old(self).total_refs(k)
                },
                Err(e) => e == Errno::ENFILE && *final(self) == *old(self) && (
                old(self).files.slots@[h as int]->0).refcount == usize::MAX,
            },
    {
        let ghost pre = *self;
        let rc: usize = match &self.files.slots[h] {
            Some(s) => s.refcount,
            None => 0,
        };
        if rc == usize::MAX {
            return Err(Errno::ENFILE);
        }
        let mut tmp: Option<FileSlot> = None;
        core::mem::swap(&mut tmp, &mut self.files.slots[h]);
        match tmp {
            Some(s) => {
                let file = s.file;
                self.files.slots.set(h, Some(FileSlot { refcount: rc + 1, file }));
                proof {
                    lemma_referenced_not_queued(pre, h as int);
                    assert(pre.slot_inv(h as int));
                    let oldslot = pre.files.slots@[h as int]->0;
                    let newslot = FileSlot { refcount: (rc + 1) as usize, file: oldslot.file };
                    assert(self.files.slots@ =~= pre.files.slots@.update(h as int, Some(newslot)));
                    lemma_inv_payload_update(pre, *self, h as int, oldslot, newslot);
                    assert(self.total_refs(h as int) == pre.total_refs(h as int));
                    assert(self.has_surplus(h as int, 1));
                }
                Ok(OpenFile { handle: h })
            },
            None => {
                proof {
                    assert(false);
                }
                Err(Errno::ENFILE)
            },
        }
    }

    /// Takes the thread's blocked condition, handing back the active file
    /// it held, if any: the reference moves from the condition to the
    /// caller. This is the resumption path of a previously blocked call,
    /// which must bypass the descriptor table.
    pub fn take_condition_active_file(&mut self) -> (r: Option<OpenFile>)
        requires
            old(self).inv(),
        ensures
            final(self).inv(),
            final(self).condition is None,
            final(self).files == old(self).files,
            final(self).descriptors == old(self).descriptors,
            final(self).ns == old(self).ns,
            final(self).events == old(self).events,
            final(self).mem == old(self).mem,
            match r {
                Some(of) => {
                    &&& match old(self).condition {
                        Some(c) => c.active_file == Some(of),
                        None => false,
                    }
                    &&& of.handle < FILE_TABLE_SIZE
                    &&& final(self).files.slots@[of.handle as int] is Some
                    &&& final(self).has_surplus(of.handle as int, 1)
                },
                None => match old(self).condition {
                    Some(c) => c.active_file is None,
                    None => true,
                },
            },
    {
        let ghost pre = *self;
        let mut tmp: Option<SysCallCondition> = None;
        core::mem::swap(&mut tmp, &mut self.condition);
        proof {
            lemma_inv_cond_update(pre, *self, None);
        }
        match tmp {
            Some(c) => match c.active_file {
                Some(of) => {
                    proof {
                        let h = of.handle as int;
                        assert(cond_ref_one(pre.condition, h) == 1);
                        assert(pre.slot_inv(h));
                        lemma_desc_refs_upto_nonneg(
                            pre.descriptors.slots@,
                            h,
                            pre.descriptors.slots@.len() as int,
                        );
                        lemma_queue_refs_upto_nonneg(
                            pre.files.slots@,
                            h,
                            pre.files.slots@.len() as int,
                        );
                        assert(pre.files.slots@[h] is Some);
                    }
                    Some(of)
                },
                None => None,
            },
            None => None,
        }
    }

    /// Installs a blocked condition for the calling thread; an active file
    /// passed in moves its reference into the condition.
    pub fn set_condition(&mut self, cond: SysCallCondition)
        requires
            old(self).inv(),
            old(self).condition is None,
            cond.trigger.file < FILE_TABLE_SIZE,
            match cond.active_file {
                Some(of) => of.handle < FILE_TABLE_SIZE && old(self).has_surplus(
                    of.handle as int,
                    1,
                ),
                None => true,
            },
        ensures
            final(self).inv(),
            final(self).condition == Some(cond),
            final(self).files == old(self).files,
            final(self).descriptors == old(self).descriptors,
            final(self).ns == old(self).ns,
            final(self).events == old(self).events,
            final(self).mem == old(self).mem,
    {
        let ghost pre = *self;
        self.condition = Some(cond);
        proof {
            lemma_inv_cond_update(pre, *self, Some(cond));
        }
    }

    /// Resolves a descriptor, or `EBADF` exactly when the number is out of
    /// range or unused.
    pub fn get_descriptor(&self, fd: i32) -> (r: Result<&Descriptor, Errno>)
        requires
            self.inv(),
        ensures
            match r {
                Ok(d) => 0 <= fd < DESC_TABLE_SIZE
                    && self.descriptors.slots@[fd as int] == Some(*d),
                Err(e) => e == Errno::EBADF && (fd < 0 || fd >= DESC_TABLE_SIZE
                    || self.descriptors.slots@[fd as int] is None),
            },
    {
        if fd < 0 || fd >= DESC_TABLE_SIZE as i32 {
            return Err(Errno::EBADF);
        }
        match &self.descriptors.slots[fd as usize] {
            Some(d) => Ok(d),
            None => Err(Errno::EBADF),
        }
    }

    /// Registers a descriptor at the lowest free number. On exhaustion the
    /// descriptor is handed back so its reference can be released.
    pub fn register_descriptor(&mut self, desc: Descriptor) -> (r: Result<usize, Descriptor>)
        requires
            old(self).inv(),
            match desc.file {
                CompatFile::New(of) => of.handle < FILE_TABLE_SIZE && old(self).has_surplus(
                    of.handle as int,
                    1,
                ),
                CompatFile::Legacy(_) => true,
            },
        ensures
            final(self).inv(),
            final(self).files == old(self).files,
            final(self).condition == old(self).condition,
            final(self).ns == old(self).ns,
            final(self).events == old(self).events,
            final(self).mem == old(self).mem,
            match r {
                Ok(fd) => {
                    &&& fd < DESC_TABLE_SIZE
                    &&& old(self).descriptors.slots@[fd as int] is None
                    &&& forall|j: int| 0 <= j < fd ==> old(self).descriptors.slots@[j] is Some
                    &&& final(self).descriptors.slots@ == old(self).descriptors.slots@.update(
                        fd as int,
                        Some(desc),
                    )
                    &&& forall|k: int| #[trigger] final(self).total_refs(k) == old(
                        self,
                    ).total_refs(k) + desc_ref_one(Some(desc), k)
                },
                Err(d) => d == desc && *final(self) == *old(self) && forall|j: int|
                    0 <= j < DESC_TABLE_SIZE ==> old(self).descriptors.slots@[j] is Some,
            },
    {
        let ghost pre = *self;
        match self.descriptors.find_free() {
            Some(fd) => {
                self.descriptors.slots.set(fd, Some(desc));
                proof {
                    assert(self.descriptors.slots@ =~= pre.descriptors.slots@.update(
                        fd as int,
                        Some(desc),
                    ));
                    lemma_inv_desc_update(pre, *self, fd as int, Some(desc));
                }
                Ok(fd)
            },
            None => Err(desc),
        }
    }

    /// Registers a descriptor at a chosen number, returning the descriptor
    /// it evicts, whose reference the caller now holds.
    pub fn register_descriptor_at(&mut self, fd: usize, desc: Descriptor) -> (r: Option<
        Descriptor,
    >)
        requires
            old(self).inv(),
            fd < DESC_TABLE_SIZE,
            match desc.file {
                CompatFile::New(of) => of.handle < FILE_TABLE_SIZE && old(self).has_surplus(
                    of.handle as int,
                    1,
                ),
                CompatFile::Legacy(_) => true,
            },
        ensures
            final(self).inv(),
            final(self).files == old(self).files,
            final(self).condition == old(self).condition,
            final(self).ns == old(self).ns,
            final(self).events == old(self).events,
            final(self).mem == old(self).mem,
            r == old(self).descriptors.slots@[fd as int],
            final(self).descriptors.slots@ == old(self).descriptors.slots@.update(
                fd as int,
                Some(desc),
            ),
            forall|k: int| #[trigger] final(self).total_refs(k) == old(self).total_refs(k)
                + desc_ref_one(Some(desc), k) - desc_ref_one(
                old(self).descriptors.slots@[fd as int],
                k,
            ),
            match r {
                Some(d) => match d.file {
                    CompatFile::New(of) => of.handle < FILE_TABLE_SIZE
                        && final(self).files.slots@[of.handle as int] is Some
                        && final(self).has_surplus(of.handle as int, 1),
                    CompatFile::Legacy(_) => true,
                },
                None => true,
            },
    {
        let ghost pre = *self;
        let mut tmp: Option<Descriptor> = Some(desc);
        core::mem::swap(&mut tmp, &mut self.descriptors.slots[fd]);
        proof {
            lemma_inv_desc_update(pre, *self, fd as int, pre.descriptors.slots@.update(
                fd as int,
                Some(desc),
            )[fd as int]);
            assert(pre.desc_inv(fd as int));
            let t = tmp;
            match t {
                Some(d) => match d.file {
                    CompatFile::New(of) => {
                        let h = of.handle as int;
                        lemma_desc_refs_member(pre.descriptors.slots@, fd as int, h);
                        lemma_queue_refs_upto_nonneg(
                            pre.files.slots@,
                            h,
                            pre.files.slots@.len() as int,
                        );
                        lemma_desc_refs_upto_nonneg(
                            pre.descriptors.slots@,
                            h,
                            pre.descriptors.slots@.len() as int,
                        );
                        assert(pre.total_refs(h) >= 1);
                        assert(pre.slot_inv(h));
                        assert(pre.files.slots@[h] is Some);
                    },
                    CompatFile::Legacy(_) => {},
                },
                None => {},
            }
        }
        tmp
    }

    /// Removes a descriptor binding; the caller takes over its reference.
    pub fn deregister_descriptor(&mut self, fd: usize) -> (r: Option<Descriptor>)
        requires
            old(self).inv(),
            fd < DESC_TABLE_SIZE,
        ensures
            final(self).inv(),
            final(self).files == old(self).files,
            final(self).condition == old(self).condition,
            final(self).ns == old(self).ns,
            final(self).events == old(self).events,
            final(self).mem == old(self).mem,
            r == old(self).descriptors.slots@[fd as int],
            final(self).descriptors.slots@ == old(self).descriptors.slots@.update(fd as int, None),
            forall|k: int| #[trigger] final(self).total_refs(k) == old(self).total_refs(k)
                - desc_ref_one(old(self).descriptors.slots@[fd as int], k),
            match r {
                Some(d) => match d.file {
                    CompatFile::New(of) => of.handle < FILE_TABLE_SIZE
                        && final(self).files.slots@[of.handle as int] is Some
                        && final(self).has_surplus(of.handle as int, 1),
                    CompatFile::Legacy(_) => true,
                },
                None => true,
            },
    {
        let ghost pre = *self;
        let mut tmp: Option<Descriptor> = None;
        core::mem::swap(&mut tmp, &mut self.descriptors.slots[fd]);
        proof {
            lemma_inv_desc_update(pre, *self, fd as int, None);
            assert(pre.desc_inv(fd as int));
            let t = tmp;
            match t {
                Some(d) => match d.file {
                    CompatFile::New(of) => {
                        let h = of.handle as int;
                        lemma_desc_refs_member(pre.descriptors.slots@, fd as int, h);
                        lemma_queue_refs_upto_nonneg(
                            pre.files.slots@,
                            h,
                            pre.files.slots@.len() as int,
                        );
                        lemma_desc_refs_upto_nonneg(
                            pre.descriptors.slots@,
                            h,
                            pre.descriptors.slots@.len() as int,
                        );
                        assert(pre.total_refs(h) >= 1);
                        assert(pre.slot_inv(h));
                        assert(pre.files.slots@[h] is Some);
                    },
                    CompatFile::Legacy(_) => {},
                },
                None => {},
            }
        }
        tmp
    }
}

/// Byte-for-byte copy of a byte vector.
pub fn clone_bytes(v: &Vec<u8>) -> (r: Vec<u8>)
    ensures
        r@ == v@,
{
    let mut out: Vec<u8> = Vec::new();
    let mut i: usize = 0;
    while i < v.len()
        invariant
            i <= v@.len(),
            out@.len() == i,
            forall|j: int| 0 <= j < i ==> out@[j] == v@[j],
        decreases v@.len() - i,
    {
        out.push(v[i]);
        i = i + 1;
    }
    proof {
        assert(out@ =~= v@);
    }
    out
}

/// Filling a free slot with a detached file preserves the invariant.
pub proof fn lemma_inv_alloc(pre: SyscallContext, post: SyscallContext, h: int, file: File)
    requires
        pre.inv(),
        0 <= h < FILE_TABLE_SIZE,
        pre.files.slots@[h] is None,
        file.spec_peer() is None,
        file.spec_queue() == Seq::<usize>::empty(),
        file.local_wf(),
        pre.same_except_file(post, h, Some(FileSlot { refcount: 1, file })),
    ensures
        post.inv(),
        forall|k: int| #[trigger] post.total_refs(k) == pre.total_refs(k),
        post.has_surplus(h, 1),
{
    assert forall|k: int| #[trigger] post.total_refs(k) == pre.total_refs(k) by {
        lemma_queue_refs_update(pre.files.slots@, h, Some(FileSlot { refcount: 1, file }), k);
        assert(count_handles(slot_queue(pre.files.slots@[h]), k) == 0);
        assert(count_handles(file.spec_queue(), k) == 0);
    }
    assert forall|g: int| 0 <= g < FILE_TABLE_SIZE implies #[trigger] post.slot_inv(g) by {
        assert(pre.slot_inv(g));
        if g == h {
            assert(pre.total_refs(h) == 0);
            assert(post.total_refs(h) == 0);
            assert(post.queue_clause(h)) by {
                assert(slot_queue(post.files.slots@[h]).len() == 0);
            }
        } else {
            assert(post.files.slots@[g] == pre.files.slots@[g]);
            assert(post.peer_clause(g)) by {
                if pre.spec_peer_of(g) is Some {
                    let p = pre.spec_peer_of(g)->0 as int;
                    assert(pre.files.slots@[p] is Some);
                    assert(p != h);
                }
            }
            assert(post.queue_clause(g)) by {
                let q = slot_queue(post.files.slots@[g]);
                assert forall|i: int| 0 <= i < q.len() implies {
                    let ch = #[trigger] q[i] as int;
                    &&& 0 <= ch < post.files.slots@.len()
                    &&& ch != g
                    &&& match post.files.slots@[ch] {
                        Some(cs) => cs.refcount == 1 && match cs.file {
                            File::Socket(Socket::Unix(u)) => u.listen is None && u.bound is None,
                            _ => false,
                        },
                        None => false,
                    }
                } by {
                    assert(pre.queue_clause(g));
                    let ch = q[i] as int;
                    assert(pre.files.slots@[ch] is Some);
                    assert(ch != h);
                }
            }
        }
    }
    assert forall|i: int| 0 <= i < DESC_TABLE_SIZE implies #[trigger] post.desc_inv(i) by {
        assert(pre.desc_inv(i));
    }
    assert forall|i: int| 0 <= i < post.ns@.len() implies #[trigger] post.ns_entry_inv(i) by {
        assert(pre.ns_entry_inv(i));
        let e = post.ns@[i];
        assert(pre.files.slots@[e.handle as int] is Some);
        assert(e.handle as int != h);
    }
    assert(post.total_refs(h) == pre.total_refs(h));
    assert(pre.slot_inv(h));
    assert(pre.total_refs(h) == 0);
}

impl SyscallContext {
    /// Places a fresh, detached file object in a free slot, returning the
    /// one reference to it. `ENFILE` exactly when the file table is full.
    pub fn alloc_file(&mut self, file: File) -> (r: Result<OpenFile, Errno>)
        requires
            old(self).inv(),
            file.spec_peer() is None,
            file.spec_queue() == Seq::<usize>::empty(),
            file.local_wf(),
        ensures
            final(self).inv(),
            match r {
                Ok(of) => {
                    &&& of.handle < FILE_TABLE_SIZE
                    &&& old(self).files.slots@[of.handle as int] is None
                    &&& old(self).same_except_file(
                        *final(self),
                        of.handle as int,
                        Some(FileSlot { refcount: 1, file }),
                    )
                    &&& final(self).has_surplus(of.handle as int, 1)
                    &&& forall|k: int| #[trigger] final(self).total_refs(k)
                        == old(self).total_refs(k)
                },
                Err(e) => e == Errno::ENFILE && *final(self) == *old(self) && forall|k: int|
                    0 <= k < FILE_TABLE_SIZE ==> old(self).files.slots@[k] is Some,
            },
    {
        let ghost pre = *self;
        let mut h: usize = 0;
        let mut found: bool = false;
        while h < FILE_TABLE_SIZE && !found
            invariant
                h <= FILE_TABLE_SIZE,
                *self == pre,
                pre.inv(),
                found ==> h < FILE_TABLE_SIZE && pre.files.slots@[h as int] is None,
                !found ==> forall|k: int| 0 <= k < h ==> pre.files.slots@[k] is Some,
            decreases FILE_TABLE_SIZE - h + if found { 0int } else { 1int },
        {
            if self.files.slots[h].is_none() {
                found = true;
            } else {
                h = h + 1;
            }
        }
        if !found {
            return Err(Errno::ENFILE);
        }
        self.files.slots.set(h, Some(FileSlot { refcount: 1, file }));
        proof {
            assert(self.files.slots@ =~= pre.files.slots@.update(
                h as int,
                Some(FileSlot { refcount: 1, file }),
            ));
            lemma_inv_alloc(pre, *self, h as int, file);
        }
        Ok(OpenFile { handle: h })
    }
}


/// Replacing the objects at two slots — with unchanged reference counts,
/// kinds, queues, bound names and listening dispositions — preserves the
/// invariant, provided their peer links are consistent: either they point
/// at each other or they are absent, both before and after.
pub proof fn lemma_inv_pair_update(
    pre: SyscallContext,
    post: SyscallContext,
    a: int,
    b: int,
    olda: FileSlot,
    oldb: FileSlot,
    newa: FileSlot,
    newb: FileSlot,
)
    requires
        pre.inv(),
        0 <= a < FILE_TABLE_SIZE,
        0 <= b < FILE_TABLE_SIZE,
        a != b,
        pre.files.slots@[a] == Some(olda),
        pre.files.slots@[b] == Some(oldb),
        newa.refcount == olda.refcount,
        newb.refcount == oldb.refcount,
        same_kind(olda.file, newa.file),
        same_kind(oldb.file, newb.file),
        is_listening(newa.file) == is_listening(olda.file),
        is_listening(newb.file) == is_listening(oldb.file),
        newa.file.spec_queue() == olda.file.spec_queue(),
        newb.file.spec_queue() == oldb.file.spec_queue(),
        newa.file.spec_bound() == olda.file.spec_bound(),
        newb.file.spec_bound() == oldb.file.spec_bound(),
        newa.file.local_wf(),
        newb.file.local_wf(),
        (olda.file.spec_peer() is None && oldb.file.spec_peer() is None)
            || (olda.file.spec_peer() == Some(b as usize) && oldb.file.spec_peer() == Some(
            a as usize,
        )),
        (newa.file.spec_peer() is None && newb.file.spec_peer() is None)
            || (newa.file.spec_peer() == Some(b as usize) && newb.file.spec_peer() == Some(
            a as usize,
        ) && pair_shape_ok(newa.file, newb.file)),
        post.files.slots@ == pre.files.slots@.update(a, Some(newa)).update(b, Some(newb)),
        post.descriptors == pre.descriptors,
        post.condition == pre.condition,
        post.ns == pre.ns,
    ensures
        post.inv(),
        forall|k: int| #[trigger] post.total_refs(k) == pre.total_refs(k),
{
    let mid = pre.files.slots@.update(a, Some(newa));
    assert forall|k: int| #[trigger] post.total_refs(k) == pre.total_refs(k) by {
        lemma_queue_refs_upto_update(pre.files.slots@, a, Some(newa), k, FILE_TABLE_SIZE as int);
        lemma_queue_refs_upto_update(mid, b, Some(newb), k, FILE_TABLE_SIZE as int);
        assert(mid[b] == pre.files.slots@[b]);
    }
    assert forall|g: int| 0 <= g < FILE_TABLE_SIZE implies #[trigger] post.slot_inv(g) by {
        assert(pre.slot_inv(g));
        assert(post.total_refs(g) == pre.total_refs(g));
        if g == a || g == b {
            let newf = if g == a { newa.file } else { newb.file };
            assert(post.peer_clause(g)) by {
                if newf.spec_peer() is Some {
                    assert(pair_shape_ok(newa.file, newb.file));
                    assert(pair_shape_ok(newb.file, newa.file));
                }
            }
            assert(post.queue_clause(g)) by {
                let q = slot_queue(post.files.slots@[g]);
                let ghost gg = if g == a { a } else { b };
                assert(q == slot_queue(pre.files.slots@[g]));
                assert forall|i: int| 0 <= i < q.len() implies {
                    let ch = #[trigger] q[i] as int;
                    &&& 0 <= ch < post.files.slots@.len()
                    &&& ch != g
                    &&& match post.files.slots@[ch] {
                        Some(cs) => cs.refcount == 1 && match cs.file {
                            File::Socket(Socket::Unix(u)) => u.listen is None && u.bound is None,
                            _ => false,
                        },
                        None => false,
                    }
                } by {
                    assert(pre.queue_clause(g));
                    let ch = q[i] as int;
                    if ch != a && ch != b {
                        assert(post.files.slots@[ch] == pre.files.slots@[ch]);
                    }
                }
            }
        } else {
            assert(post.files.slots@[g] == pre.files.slots@[g]);
            assert(post.peer_clause(g)) by {
                if pre.spec_peer_of(g) is Some {
                    let p = pre.spec_peer_of(g)->0 as int;
                    if p == a || p == b {
                        // mutual links force the old peer of a or b to be g,
                        // yet those peers are either absent or within the pair
                        assert(false);
                    } else {
                        assert(post.files.slots@[p] == pre.files.slots@[p]);
                    }
                }
            }
            assert(post.queue_clause(g)) by {
                let q = slot_queue(post.files.slots@[g]);
                assert forall|i: int| 0 <= i < q.len() implies {
                    let ch = #[trigger] q[i] as int;
                    &&& 0 <= ch < post.files.slots@.len()
                    &&& ch != g
                    &&& match post.files.slots@[ch] {
                        Some(cs) => cs.refcount == 1 && match cs.file {
                            File::Socket(Socket::Unix(u)) => u.listen is None && u.bound is None,
                            _ => false,
                        },
                        None => false,
                    }
                } by {
                    assert(pre.queue_clause(g));
                    let ch = q[i] as int;
                    if ch != a && ch != b {
                        assert(post.files.slots@[ch] == pre.files.slots@[ch]);
                    }
                }
            }
        }
    }
    assert forall|i: int| 0 <= i < DESC_TABLE_SIZE implies #[trigger] post.desc_inv(i) by {
        assert(pre.desc_inv(i));
    }
    assert forall|i: int| 0 <= i < post.ns@.len() implies #[trigger] post.ns_entry_inv(i) by {
        assert(pre.ns_entry_inv(i));
        let e = post.ns@[i];
        if e.handle as int != a && e.handle as int != b {
            assert(post.files.slots@[e.handle as int] == pre.files.slots@[e.handle as int]);
        }
    }
}

/// Emptying a slot whose object holds no references, has no peer, no
/// queue and no namespace entry preserves the invariant.
pub proof fn lemma_inv_free(pre: SyscallContext, post: SyscallContext, h: int)
    requires
        pre.inv(),
        0 <= h < FILE_TABLE_SIZE,
        pre.files.slots@[h] is Some,
        (pre.files.slots@[h]->0).file.spec_peer() is None,
        (pre.files.slots@[h]->0).file.spec_queue() == Seq::<usize>::empty(),
        pre.total_refs(h) == 0,
        forall|i: int| 0 <= i < pre.ns@.len() ==> (#[trigger] pre.ns@[i]).handle != h,
        pre.same_except_file(post, h, None) || (post.files.slots@ == pre.files.slots@.update(
            h,
            None,
        ) && post.descriptors == pre.descriptors && post.condition == pre.condition && post.ns
            == pre.ns),
    ensures
        post.inv(),
        forall|k: int| #[trigger] post.total_refs(k) == pre.total_refs(k),
{
    assert forall|k: int| #[trigger] post.total_refs(k) == pre.total_refs(k) by {
        lemma_queue_refs_update(pre.files.slots@, h, None, k);
        assert(count_handles(slot_queue(pre.files.slots@[h]), k) == 0);
    }
    assert forall|g: int| 0 <= g < FILE_TABLE_SIZE implies #[trigger] post.slot_inv(g) by {
        assert(pre.slot_inv(g));
        assert(post.total_refs(g) == pre.total_refs(g));
        if g == h {
        } else {
            assert(post.files.slots@[g] == pre.files.slots@[g]);
            assert(post.peer_clause(g)) by {
                if pre.spec_peer_of(g) is Some {
                    let p = pre.spec_peer_of(g)->0 as int;
                    if p == h {
                        // mutuality would give h a peer link back to g
                        assert(false);
                    } else {
                        assert(post.files.slots@[p] == pre.files.slots@[p]);
                    }
                }
            }
            assert(post.queue_clause(g)) by {
                let q = slot_queue(post.files.slots@[g]);
                assert forall|i: int| 0 <= i < q.len() implies {
                    let ch = #[trigger] q[i] as int;
                    &&& 0 <= ch < post.files.slots@.len()
                    &&& ch != g
                    &&& match post.files.slots@[ch] {
                        Some(cs) => cs.refcount == 1 && match cs.file {
                            File::Socket(Socket::Unix(u)) => u.listen is None && u.bound is None,
                            _ => false,
                        },
                        None => false,
                    }
                } by {
                    assert(pre.queue_clause(g));
                    let ch = q[i] as int;
                    if ch == h {
                        lemma_count_member(q, i);
                        lemma_queue_refs_member(pre.files.slots@, g, h);
                        lemma_desc_refs_upto_nonneg(
                            pre.descriptors.slots@,
                            h,
                            pre.descriptors.slots@.len() as int,
                        );
                        assert(false);
                    } else {
                        assert(post.files.slots@[ch] == pre.files.slots@[ch]);
                    }
                }
            }
        }
    }
    assert forall|i: int| 0 <= i < DESC_TABLE_SIZE implies #[trigger] post.desc_inv(i) by {
        assert(pre.desc_inv(i));
    }
    assert forall|i: int| 0 <= i < post.ns@.len() implies #[trigger] post.ns_entry_inv(i) by {
        assert(pre.ns_entry_inv(i));
        let e = post.ns@[i];
        assert(e.handle != h);
    }
}

/// Removing the front entry of a listening socket's accept queue
/// preserves the invariant and hands the caller the entry's reference.
pub proof fn lemma_inv_queue_pop(
    pre: SyscallContext,
    post: SyscallContext,
    h: int,
    oldslot: FileSlot,
    newslot: FileSlot,
    ch: int,
)
    requires
        pre.inv(),
        0 <= h < FILE_TABLE_SIZE,
        pre.files.slots@[h] == Some(oldslot),
        oldslot.file.spec_queue().len() > 0,
        oldslot.file.spec_queue()[0] == ch,
        newslot.refcount == oldslot.refcount,
        same_kind(oldslot.file, newslot.file),
        is_listening(newslot.file) == is_listening(oldslot.file),
        newslot.file.spec_queue() == oldslot.file.spec_queue().subrange(
            1,
            oldslot.file.spec_queue().len() as int,
        ),
        newslot.file.spec_bound() == oldslot.file.spec_bound(),
        newslot.file.spec_peer() == oldslot.file.spec_peer(),
        newslot.file.local_wf(),
        pre.same_except_file(post, h, Some(newslot)),
    ensures
        post.inv(),
        post.total_refs(ch) == pre.total_refs(ch) - 1,
        forall|k: int| k != ch ==> #[trigger] post.total_refs(k) == pre.total_refs(k),
        post.has_surplus(ch, 1),
        0 <= ch < FILE_TABLE_SIZE,
        ch != h,
        post.files.slots@[ch] == pre.files.slots@[ch],
        match post.files.slots@[ch] {
            Some(cs) => cs.refcount == 1 && match cs.file {
                File::Socket(Socket::Unix(u)) => u.listen is None && u.bound is None,
                _ => false,
            },
            None => false,
        },
{
    let q = oldslot.file.spec_queue();
    let q2 = newslot.file.spec_queue();
    assert(pre.slot_inv(h));
    assert(pre.queue_clause(h));
    assert(q[0] == ch);
    assert(0 <= ch < FILE_TABLE_SIZE && ch != h);
    assert forall|k: int| #[trigger] post.total_refs(k) == pre.total_refs(k)
        - (if k == ch { 1int } else { 0int }) by {
        lemma_queue_refs_update(pre.files.slots@, h, Some(newslot), k);
        lemma_count_head(q, k);
    }
    // the child's references: exactly the one queue entry
    assert(pre.slot_inv(ch));
    lemma_count_member(q, 0);
    lemma_queue_refs_member(pre.files.slots@, h, ch);
    lemma_desc_refs_upto_nonneg(pre.descriptors.slots@, ch, pre.descriptors.slots@.len() as int);
    assert(pre.total_refs(ch) == 1);
    assert forall|g: int| 0 <= g < FILE_TABLE_SIZE implies #[trigger] post.slot_inv(g) by {
        assert(pre.slot_inv(g));
        if g == h {
            assert(post.queue_clause(h)) by {
                assert forall|i: int| 0 <= i < q2.len() implies {
                    let c = #[trigger] q2[i] as int;
                    &&& 0 <= c < post.files.slots@.len()
                    &&& c != h
                    &&& match post.files.slots@[c] {
                        Some(cs) => cs.refcount == 1 && match cs.file {
                            File::Socket(Socket::Unix(u)) => u.listen is None && u.bound is None,
                            _ => false,
                        },
                        None => false,
                    }
                } by {
                    assert(q2[i] == q[i + 1]);
                    let c = q2[i] as int;
                    assert(post.files.slots@[c] == pre.files.slots@[c]);
                }
            }
            assert(post.peer_clause(h)) by {
                if newslot.file.spec_peer() is Some {
                    let p = newslot.file.spec_peer()->0 as int;
                    assert(pre.peer_clause(h));
                    assert(post.files.slots@[p] == pre.files.slots@[p]);
                    let pslot = pre.files.slots@[p]->0;
                    assert(pair_shape_ok(oldslot.file, pslot.file));
                    assert(pair_shape_ok(newslot.file, pslot.file));
                }
            }
        } else {
            assert(post.files.slots@[g] == pre.files.slots@[g]);
            match post.files.slots@[g] {
                Some(slot) => {
                    if g == ch {
                        assert(slot.refcount >= post.total_refs(g));
                    } else {
                        assert(post.total_refs(g) == pre.total_refs(g));
                    }
                    assert(post.peer_clause(g)) by {
                        if pre.spec_peer_of(g) is Some {
                            let p = pre.spec_peer_of(g)->0 as int;
                            if p != h {
                                assert(post.files.slots@[p] == pre.files.slots@[p]);
                            } else {
                                let gslot = pre.files.slots@[g]->0;
                                assert(pair_shape_ok(gslot.file, oldslot.file));
                                assert(pair_shape_ok(gslot.file, newslot.file));
                            }
                        }
                    }
                    assert(post.queue_clause(g)) by {
                        let qg = slot_queue(post.files.slots@[g]);
                        assert forall|i: int| 0 <= i < qg.len() implies {
                            let c = #[trigger] qg[i] as int;
                            &&& 0 <= c < post.files.slots@.len()
                            &&& c != g
                            &&& match post.files.slots@[c] {
                                Some(cs) => cs.refcount == 1 && match cs.file {
                                    File::Socket(Socket::Unix(u)) => u.listen is None && u.bound is None,
                                    _ => false,
                                },
                                None => false,
                            }
                        } by {
                            assert(pre.queue_clause(g));
                            let c = qg[i] as int;
                            if c != h {
                                assert(post.files.slots@[c] == pre.files.slots@[c]);
                            }
                        }
                    }
                },
                None => {
                    assert(pre.total_refs(g) == 0);
                    lemma_queue_refs_upto_nonneg(
                        pre.files.slots@,
                        g,
                        pre.files.slots@.len() as int,
                    );
                    lemma_desc_refs_upto_nonneg(
                        pre.descriptors.slots@,
                        g,
                        pre.descriptors.slots@.len() as int,
                    );
                    assert(g != ch);
                    assert(post.total_refs(g) == 0);
                },
            }
        }
    }
    assert forall|i: int| 0 <= i < DESC_TABLE_SIZE implies #[trigger] post.desc_inv(i) by {
        assert(pre.desc_inv(i));
    }
    assert forall|i: int| 0 <= i < post.ns@.len() implies #[trigger] post.ns_entry_inv(i) by {
        assert(pre.ns_entry_inv(i));
        let e = post.ns@[i];
        if e.handle as int != h {
            assert(post.files.slots@[e.handle as int] == pre.files.slots@[e.handle as int]);
        }
    }
}

/// A context with the same component values satisfies the same invariant.
pub proof fn lemma_inv_same_views(pre: SyscallContext, post: SyscallContext)
    requires
        pre.inv(),
        post.files.slots@ == pre.files.slots@,
        post.descriptors.slots@ == pre.descriptors.slots@,
        post.condition == pre.condition,
        post.ns@ == pre.ns@,
    ensures
        post.inv(),
        forall|k: int| #[trigger] post.total_refs(k) == pre.total_refs(k),
{
    assert forall|g: int| 0 <= g < FILE_TABLE_SIZE implies #[trigger] post.slot_inv(g) by {
        assert(pre.slot_inv(g));
        assert(post.total_refs(g) == pre.total_refs(g));
        assert(post.peer_clause(g) == pre.peer_clause(g));
        assert(post.queue_clause(g) == pre.queue_clause(g));
    }
    assert forall|i: int| 0 <= i < DESC_TABLE_SIZE implies #[trigger] post.desc_inv(i) by {
        assert(pre.desc_inv(i));
    }
    assert forall|i: int| 0 <= i < post.ns@.len() implies #[trigger] post.ns_entry_inv(i) by {
        assert(pre.ns_entry_inv(i));
    }
}

impl SyscallContext {
    /// The peer link recorded at `h`.
    pub fn peer_of(&self, h: usize) -> (r: Option<usize>)
        requires
            self.inv(),
            h < FILE_TABLE_SIZE,
        ensures
            r == self.spec_peer_of(h as int),
    {
        match &self.files.slots[h] {
            Some(slot) => match &slot.file {
                File::Pipe(p) => p.peer,
                File::Socket(Socket::Unix(u)) => u.peer,
                File::Socket(Socket::Inet(_)) => None,
            },
            None => None,
        }
    }

    /// Severs a mutual peer link: both ends forget each other and the
    /// surviving end `b` is marked peer-closed, with a readiness event
    /// queued for it.
    pub fn unlink_pair(&mut self, a: usize, b: usize, q: &mut CallbackQueue)
        requires
            old(self).inv(),
            a < FILE_TABLE_SIZE,
            b < FILE_TABLE_SIZE,
            a != b,
            old(self).files.slots@[a as int] is Some,
            old(self).files.slots@[b as int] is Some,
            old(self).spec_peer_of(a as int) == Some(b),
            old(self).spec_peer_of(b as int) == Some(a),
        ensures
            final(self).inv(),
            ({
                let sa = old(self).files.slots@[a as int]->0;
                let sb = old(self).files.slots@[b as int]->0;
                final(self).files.slots@ == old(self).files.slots@.update(
                    a as int,
                    Some(FileSlot { refcount: sa.refcount, file: crate::file::spec_clear_peer(sa.file) }),
                ).update(
                    b as int,
                    Some(FileSlot { refcount: sb.refcount, file: crate::file::spec_clear_peer(sb.file) }),
                )
            }),
            final(self).descriptors == old(self).descriptors,
            final(self).condition == old(self).condition,
            final(self).ns == old(self).ns,
            final(self).events == old(self).events,
            final(self).mem == old(self).mem,
            final(q).queue@ == old(q).queue@.push(
                StateEvent {
                    file: b,
                    state: crate::file::spec_file_state(final(self).files.slots@, b as int),
                },
            ),
            forall|k: int| #[trigger] final(self).total_refs(k) == old(self).total_refs(k),
    {
        let ghost pre = *self;
        let mut tmp_a: Option<FileSlot> = None;
        core::mem::swap(&mut tmp_a, &mut self.files.slots[a]);
        let slot_a = match tmp_a {
            Some(s) => s,
            None => {
                proof {
                    assert(false);
                }
                vstd::pervasive::unreached()
            },
        };
        let rc_a = slot_a.refcount;
        let file_a = crate::file::clear_peer(slot_a.file);
        self.files.slots.set(a, Some(FileSlot { refcount: rc_a, file: file_a }));
        let mut tmp_b: Option<FileSlot> = None;
        core::mem::swap(&mut tmp_b, &mut self.files.slots[b]);
        let slot_b = match tmp_b {
            Some(s) => s,
            None => {
                proof {
                    assert(false);
                }
                vstd::pervasive::unreached()
            },
        };
        let rc_b = slot_b.refcount;
        let file_b = crate::file::clear_peer(slot_b.file);
        self.files.slots.set(b, Some(FileSlot { refcount: rc_b, file: file_b }));
        proof {
            let sa = pre.files.slots@[a as int]->0;
            let sb = pre.files.slots@[b as int]->0;
            let newa = FileSlot { refcount: sa.refcount, file: crate::file::spec_clear_peer(sa.file) };
            let newb = FileSlot { refcount: sb.refcount, file: crate::file::spec_clear_peer(sb.file) };
            assert(self.files.slots@ =~= pre.files.slots@.update(a as int, Some(newa)).update(
                b as int,
                Some(newb),
            ));
            assert(pre.slot_inv(a as int));
            assert(pre.slot_inv(b as int));
            lemma_inv_pair_update(pre, *self, a as int, b as int, sa, sb, newa, newb);
        }
        let st = crate::file::file_state(&self.files.slots, b);
        q.push(StateEvent { file: b, state: st });
    }

    /// Removes the namespace entry owned by `h`, if one exists. At most
    /// one can: two entries for one socket would carry the same name.
    pub fn ns_remove_handle(&mut self, h: usize)
        requires
            old(self).inv(),
            h < FILE_TABLE_SIZE,
        ensures
            final(self).inv(),
            final(self).files == old(self).files,
            final(self).descriptors == old(self).descriptors,
            final(self).condition == old(self).condition,
            final(self).events == old(self).events,
            final(self).mem == old(self).mem,
            forall|i: int|
                0 <= i < final(self).ns@.len() ==> (#[trigger] final(self).ns@[i]).handle != h,
            final(self).ns@ == old(self).ns@ || exists|j: int|
                0 <= j < old(self).ns@.len() && (#[trigger] old(self).ns@[j]).handle == h
                    && final(self).ns@ == old(self).ns@.remove(j),
            forall|k: int| #[trigger] final(self).total_refs(k) == old(self).total_refs(k),
            ((forall|i: int|
                0 <= i < old(self).ns@.len() ==> (#[trigger] old(self).ns@[i]).handle != h)
                ==> final(self).ns == old(self).ns),
    {
        let ghost pre = *self;
        let n = self.ns.len();
        let mut i: usize = 0;
        let mut found: bool = false;
        while i < n && !found
            invariant
                i <= n,
                n == self.ns@.len(),
                *self == pre,
                pre.inv(),
                !found ==> forall|j: int| 0 <= j < i ==> (#[trigger] pre.ns@[j]).handle != h,
                found ==> i < n && pre.ns@[i as int].handle == h,
            decreases n - i + if found { 0int } else { 1int },
        {
            if self.ns[i].handle == h {
                found = true;
            } else {
                i = i + 1;
            }
        }
        if !found {
            proof {
                assert forall|k: int| 0 <= k < self.ns@.len() implies (#[trigger] self.ns@[k]).handle
                    != h by {
                    assert(self.ns@[k] == pre.ns@[k]);
                }
            }
            return ;
        }
        self.ns.remove(i);
        proof {
            assert(self.ns@ == pre.ns@.remove(i as int));
            // remaining entries: every other old entry; none carries h,
            // since two entries for one socket would share its bound name
            assert forall|j: int| 0 <= j < self.ns@.len() implies (#[trigger] self.ns@[j]).handle
                != h by {
                let jj = if j < i { j } else { j + 1 };
                assert(self.ns@[j] == pre.ns@[jj]);
                if pre.ns@[jj].handle == h && jj != i {
                    assert(pre.ns_entry_inv(jj));
                    assert(pre.ns_entry_inv(i as int));
                    assert(pre.ns@[jj].name@ == pre.ns@[i as int].name@);
                    assert(false);
                }
            }
            assert forall|g: int| 0 <= g < FILE_TABLE_SIZE implies #[trigger] self.slot_inv(g) by {
                assert(pre.slot_inv(g));
                assert(self.total_refs(g) == pre.total_refs(g));
                assert(self.peer_clause(g) == pre.peer_clause(g));
                assert(self.queue_clause(g) == pre.queue_clause(g));
            }
            assert forall|k: int| 0 <= k < DESC_TABLE_SIZE implies #[trigger] self.desc_inv(k) by {
                assert(pre.desc_inv(k));
            }
            assert forall|j: int| 0 <= j < self.ns@.len() implies #[trigger] self.ns_entry_inv(
                j,
            ) by {
                let jj = if j < i { j } else { j + 1 };
                assert(self.ns@[j] == pre.ns@[jj]);
                assert(pre.ns_entry_inv(jj));
            }
            assert forall|j1: int, j2: int|
                0 <= j1 < self.ns@.len() && 0 <= j2 < self.ns@.len() && j1 != j2 implies (
            #[trigger] self.ns@[j1]).name@ != (#[trigger] self.ns@[j2]).name@ by {
                let k1 = if j1 < i { j1 } else { j1 + 1 };
                let k2 = if j2 < i { j2 } else { j2 + 1 };
                assert(self.ns@[j1] == pre.ns@[k1]);
                assert(self.ns@[j2] == pre.ns@[k2]);
            }
        }
    }

    /// Pops the first pending connection of a listening socket, handing
    /// the caller the queued socket's reference.
    pub fn pop_queue_front(&mut self, h: usize) -> (r: Option<OpenFile>)
        requires
            old(self).inv(),
            h < FILE_TABLE_SIZE,
            old(self).files.slots@[h as int] is Some,
        ensures
            final(self).inv(),
            final(self).descriptors == old(self).descriptors,
            final(self).condition == old(self).condition,
            final(self).ns == old(self).ns,
            final(self).events == old(self).events,
            final(self).mem == old(self).mem,
            match r {
                None => final(self).files.slots@ == old(self).files.slots@ && final(self).ns
                    == old(self).ns && slot_queue(old(self).files.slots@[h as int]).len() == 0
                    && forall|k: int| #[trigger] final(self).total_refs(k) == old(self).total_refs(k),
                Some(of) => {
                    let oldq = slot_queue(old(self).files.slots@[h as int]);
                    let ch = of.handle;
                    &&& final(self).files.slots@[h as int] is Some
                    &&& final(self).total_refs(ch as int) == old(self).total_refs(ch as int) - 1
                    &&& forall|k: int|
                        k != ch as int ==> #[trigger] final(self).total_refs(k) == old(self).total_refs(k)
                    &&& oldq.len() > 0
                    &&& ch == oldq[0]
                    &&& ch < FILE_TABLE_SIZE
                    &&& ch != h
                    &&& final(self).files.slots@[ch as int] == old(self).files.slots@[ch as int]
                    &&& final(self).files.slots@[ch as int] is Some
                    &&& final(self).has_surplus(ch as int, 1)
                    &&& match final(self).files.slots@[ch as int] {
                        Some(cs) => cs.refcount == 1 && match cs.file {
                            File::Socket(Socket::Unix(u)) => u.listen is None && u.bound is None,
                            _ => false,
                        },
                        None => false,
                    }
                    &&& slot_queue(final(self).files.slots@[h as int]) == oldq.subrange(
                        1,
                        oldq.len() as int,
                    )
                    &&& ({
                        let s = old(self).files.slots@[h as int]->0;
                        let s2 = final(self).files.slots@[h as int]->0;
                        s2.refcount == s.refcount && same_kind(s.file, s2.file) && is_listening(
                            s2.file,
                        ) == is_listening(s.file) && s2.file.spec_bound() == s.file.spec_bound()
                            && s2.file.spec_peer() == s.file.spec_peer()
                    })
                    &&& forall|k: int|
                        0 <= k < FILE_TABLE_SIZE && k != h
                            ==> final(self).files.slots@[k] == old(self).files.slots@[k]
                },
            },
    {
        let ghost pre = *self;
        let mut tmp: Option<FileSlot> = None;
        core::mem::swap(&mut tmp, &mut self.files.slots[h]);
        let slot = match tmp {
            Some(s) => s,
            None => {
                proof {
                    assert(false);
                }
                vstd::pervasive::unreached()
            },
        };
        let rc = slot.refcount;
        match slot.file {
            File::Socket(Socket::Unix(mut u)) => match u.listen {
                Some(mut l) => {
                    if l.queue.len() == 0 {
                        u.listen = Some(l);
                        self.files.slots.set(
                            h,
                            Some(FileSlot { refcount: rc, file: File::Socket(Socket::Unix(u)) }),
                        );
                        proof {
                            assert(self.files.slots@ =~= pre.files.slots@);
                            lemma_inv_same_views(pre, *self);
                        }
                        None
                    } else {
                        let ch = l.queue.remove(0);
                        u.listen = Some(l);
                        self.files.slots.set(
                            h,
                            Some(FileSlot { refcount: rc, file: File::Socket(Socket::Unix(u)) }),
                        );
                        proof {
                            assert(pre.slot_inv(h as int));
                            let oldslot = pre.files.slots@[h as int]->0;
                            let newslot = self.files.slots@[h as int]->0;
                            assert(self.files.slots@ =~= pre.files.slots@.update(
                                h as int,
                                Some(newslot),
                            ));
                            assert(newslot.file.spec_queue()
                                =~= oldslot.file.spec_queue().subrange(
                                1,
                                oldslot.file.spec_queue().len() as int,
                            ));
                            lemma_inv_queue_pop(pre, *self, h as int, oldslot, newslot, ch as int);
                        }
                        Some(OpenFile { handle: ch })
                    }
                },
                None => {
                    u.listen = None;
                    self.files.slots.set(
                        h,
                        Some(FileSlot { refcount: rc, file: File::Socket(Socket::Unix(u)) }),
                    );
                    proof {
                        assert(self.files.slots@ =~= pre.files.slots@);
                        lemma_inv_same_views(pre, *self);
                    }
                    None
                },
            },
            other => {
                self.files.slots.set(h, Some(FileSlot { refcount: rc, file: other }));
                proof {
                    assert(self.files.slots@ =~= pre.files.slots@);
                    lemma_inv_same_views(pre, *self);
                }
                None
            },
        }
    }
}

impl SyscallContext {
    /// Appends a freshly created, unshared socket to a listening socket's
    /// accept queue; the queue takes over the caller's reference.
    pub fn push_queue_child(&mut self, h: usize, child: OpenFile)
        requires
            old(self).inv(),
            h < FILE_TABLE_SIZE,
            child.handle < FILE_TABLE_SIZE,
            child.handle != h,
            is_listening(match old(self).files.slots@[h as int] {
                Some(s) => s.file,
                None => arbitrary(),
            }),
            old(self).files.slots@[h as int] is Some,
            match old(self).files.slots@[child.handle as int] {
                Some(cs) => cs.refcount == 1 && match cs.file {
                    File::Socket(Socket::Unix(u)) => u.listen is None && u.bound is None,
                    _ => false,
                },
                None => false,
            },
            old(self).total_refs(child.handle as int) == 0,
        ensures
            final(self).inv(),
            final(self).descriptors == old(self).descriptors,
            final(self).condition == old(self).condition,
            final(self).ns == old(self).ns,
            final(self).events == old(self).events,
            final(self).mem == old(self).mem,
            forall|k: int|
                0 <= k < FILE_TABLE_SIZE && k != h ==> final(self).files.slots@[k] == old(self).files.slots@[k],
            final(self).total_refs(child.handle as int) == old(self).total_refs(
                child.handle as int,
            ) + 1,
            forall|k: int|
                k != child.handle as int ==> #[trigger] final(self).total_refs(k) == old(self).total_refs(k),
            slot_queue(final(self).files.slots@[h as int]) == slot_queue(
                old(self).files.slots@[h as int],
            ).push(child.handle),
            ({
                let s = old(self).files.slots@[h as int]->0;
                let s2 = final(self).files.slots@[h as int]->0;
                s2.refcount == s.refcount && same_kind(s.file, s2.file) && is_listening(s2.file)
                    && s2.file.spec_bound() == s.file.spec_bound() && s2.file.spec_peer()
                    == s.file.spec_peer() && match (s.file, s2.file) {
                    (File::Socket(Socket::Unix(u)), File::Socket(Socket::Unix(u2))) => u2 == (
                    UnixSocket {
                        listen: u2.listen,
                        ..u
                    }) && match (u.listen, u2.listen) {
                        (Some(l), Some(l2)) => l2.backlog == l.backlog && l2.queue@ == l.queue@.push(
                            child.handle,
                        ),
                        _ => false,
                    },
                    _ => false,
                }
            }),
    {
        let ghost pre = *self;
        let mut tmp: Option<FileSlot> = None;
        core::mem::swap(&mut tmp, &mut self.files.slots[h]);
        let slot = match tmp {
            Some(s) => s,
            None => {
                proof {
                    assert(false);
                }
                vstd::pervasive::unreached()
            },
        };
        let rc = slot.refcount;
        match slot.file {
            File::Socket(Socket::Unix(mut u)) => match u.listen {
                Some(mut l) => {
                    l.queue.push(child.handle);
                    u.listen = Some(l);
                    self.files.slots.set(
                        h,
                        Some(FileSlot { refcount: rc, file: File::Socket(Socket::Unix(u)) }),
                    );
                    proof {
                        assert(pre.slot_inv(h as int));
                        assert(pre.slot_inv(child.handle as int));
                        let oldslot = pre.files.slots@[h as int]->0;
                        let newslot = self.files.slots@[h as int]->0;
                        let ch = child.handle as int;
                        assert(self.files.slots@ =~= pre.files.slots@.update(
                            h as int,
                            Some(newslot),
                        ));
                        assert(newslot.file.spec_queue() =~= oldslot.file.spec_queue().push(
                            child.handle,
                        ));
                        assert forall|k: int| #[trigger] self.total_refs(k) == pre.total_refs(k)
                            + (if k == ch { 1int } else { 0int }) by {
                            lemma_queue_refs_update(pre.files.slots@, h as int, Some(newslot), k);
                            lemma_count_push(oldslot.file.spec_queue(), child.handle, k);
                        }
                        assert forall|g: int| 0 <= g < FILE_TABLE_SIZE implies
                            #[trigger] self.slot_inv(g) by {
                            assert(pre.slot_inv(g));
                            if g == h {
                                assert(self.queue_clause(h as int)) by {
                                    let q = slot_queue(self.files.slots@[h as int]);
                                    let oldq = oldslot.file.spec_queue();
                                    assert forall|i: int| 0 <= i < q.len() implies {
                                        let c = #[trigger] q[i] as int;
                                        &&& 0 <= c < self.files.slots@.len()
                                        &&& c != h
                                        &&& match self.files.slots@[c] {
                                            Some(cs) => cs.refcount == 1 && match cs.file {
                                                File::Socket(Socket::Unix(uu)) => uu.listen
                                                    is None && uu.bound is None,
                                                _ => false,
                                            },
                                            None => false,
                                        }
                                    } by {
                                        assert(pre.queue_clause(h as int));
                                        if i < oldq.len() {
                                            assert(q[i] == oldq[i]);
                                            let c = q[i] as int;
                                            if c != ch {
                                                assert(self.files.slots@[c]
                                                    == pre.files.slots@[c]);
                                            }
                                        } else {
                                            assert(q[i] == child.handle);
                                        }
                                    }
                                }
                                assert(self.peer_clause(h as int)) by {
                                    if newslot.file.spec_peer() is Some {
                                        let p = newslot.file.spec_peer()->0 as int;
                                        assert(pre.peer_clause(h as int));
                                        assert(self.files.slots@[p] == pre.files.slots@[p]);
                                        let pslot = pre.files.slots@[p]->0;
                                        assert(pair_shape_ok(oldslot.file, pslot.file));
                                        assert(pair_shape_ok(newslot.file, pslot.file));
                                    }
                                }
                            } else {
                                assert(self.files.slots@[g] == pre.files.slots@[g]);
                                match self.files.slots@[g] {
                                    Some(gs) => {
                                        assert(gs.refcount >= self.total_refs(g));
                                        assert(self.peer_clause(g)) by {
                                            if pre.spec_peer_of(g) is Some {
                                                let p = pre.spec_peer_of(g)->0 as int;
                                                if p != h {
                                                    assert(self.files.slots@[p]
                                                        == pre.files.slots@[p]);
                                                } else {
                                                    let gslot = pre.files.slots@[g]->0;
                                                    assert(pair_shape_ok(gslot.file, oldslot.file));
                                                    assert(pair_shape_ok(gslot.file, newslot.file));
                                                }
                                            }
                                        }
                                        assert(self.queue_clause(g)) by {
                                            let qg = slot_queue(self.files.slots@[g]);
                                            assert forall|i: int| 0 <= i < qg.len() implies {
                                                let c = #[trigger] qg[i] as int;
                                                &&& 0 <= c < self.files.slots@.len()
                                                &&& c != g
                                                &&& match self.files.slots@[c] {
                                                    Some(cs) => cs.refcount == 1 && match cs.file {
                                                        File::Socket(Socket::Unix(uu)) => uu.listen
                                                            is None && uu.bound is None,
                                                        _ => false,
                                                    },
                                                    None => false,
                                                }
                                            } by {
                                                assert(pre.queue_clause(g));
                                                let c = qg[i] as int;
                                                if c == ch {
                                                    lemma_count_member(qg, i);
                                                    lemma_queue_refs_member(
                                                        pre.files.slots@,
                                                        g,
                                                        ch,
                                                    );
                                                    lemma_desc_refs_upto_nonneg(
                                                        pre.descriptors.slots@,
                                                        ch,
                                                        pre.descriptors.slots@.len() as int,
                                                    );
                                                    assert(false);
                                                } else if c != h {
                                                    assert(self.files.slots@[c]
                                                        == pre.files.slots@[c]);
                                                }
                                            }
                                        }
                                    },
                                    None => {
                                        lemma_queue_refs_upto_nonneg(
                                            pre.files.slots@,
                                            g,
                                            pre.files.slots@.len() as int,
                                        );
                                        lemma_desc_refs_upto_nonneg(
                                            pre.descriptors.slots@,
                                            g,
                                            pre.descriptors.slots@.len() as int,
                                        );
                                        assert(g != ch);
                                        assert(self.total_refs(g) == 0);
                                    },
                                }
                            }
                        }
                        assert forall|k: int| 0 <= k < DESC_TABLE_SIZE implies
                            #[trigger] self.desc_inv(k) by {
                            assert(pre.desc_inv(k));
                        }
                        assert forall|k: int| 0 <= k < self.ns@.len() implies
                            #[trigger] self.ns_entry_inv(k) by {
                            assert(pre.ns_entry_inv(k));
                            let e = self.ns@[k];
                            if e.handle as int != h as int {
                                assert(self.files.slots@[e.handle as int]
                                    == pre.files.slots@[e.handle as int]);
                            }
                        }
                    }
                },
                None => {
                    proof {
                        assert(false);
                    }
                },
            },
            _ => {
                proof {
                    assert(false);
                }
            },
        }
    }

    /// Empties a slot that holds no references, no peer, no queue and no
    /// namespace entry.
    fn free_slot(&mut self, h: usize)
        requires
            old(self).inv(),
            h < FILE_TABLE_SIZE,
            old(self).files.slots@[h as int] is Some,
            (old(self).files.slots@[h as int]->0).file.spec_peer() is None,
            (old(self).files.slots@[h as int]->0).file.spec_queue() == Seq::<usize>::empty(),
            old(self).total_refs(h as int) == 0,
            forall|i: int| 0 <= i < old(self).ns@.len() ==> (#[trigger] old(self).ns@[i]).handle
                != h,
        ensures
            final(self).inv(),
            old(self).same_except_file(*final(self), h as int, None),
            forall|k: int| #[trigger] final(self).total_refs(k) == old(self).total_refs(k),
    {
        let ghost pre = *self;
        self.files.slots.set(h, None);
        proof {
            assert(self.files.slots@ =~= pre.files.slots@.update(h as int, None));
            lemma_inv_free(pre, *self, h as int);
        }
    }
}

impl SyscallContext {
    /// Gives up one reference to the file at the handle. While other
    /// references remain only the count drops; with the last one gone the
    /// object is torn down: its peer is severed and notified, its bound
    /// name unbound, every pending connection in its accept queue released
    /// in turn, and the slot freed.
    pub fn release_open_file(&mut self, of: OpenFile, q: &mut CallbackQueue)
        requires
            old(self).inv(),
            of.handle < FILE_TABLE_SIZE,
            old(self).files.slots@[of.handle as int] is Some,
            old(self).has_surplus(of.handle as int, 1),
        ensures
            final(self).inv(),
            final(self).descriptors == old(self).descriptors,
            final(self).condition == old(self).condition,
            final(self).mem == old(self).mem,
            final(self).events == old(self).events,
            old(q).queue@.is_prefix_of(final(q).queue@),
            ({
                let s = old(self).files.slots@[of.handle as int]->0;
                s.refcount > 1 ==> final(self).files.slots@ == old(self).files.slots@.update(
                    of.handle as int,
                    Some(FileSlot { refcount: (s.refcount - 1) as usize, file: s.file }),
                ) && final(self).ns == old(self).ns && final(q).queue@ == old(q).queue@
            }),
            ({
                let s = old(self).files.slots@[of.handle as int]->0;
                s.refcount == 1 ==> final(self).files.slots@[of.handle as int] is None
            }),
            // unrelated live objects survive with their counts intact
            forall|k: int|
                0 <= k < FILE_TABLE_SIZE && k != of.handle && old(self).files.slots@[k] is Some
                    && count_handles(
                    slot_queue(old(self).files.slots@[of.handle as int]),
                    k,
                ) == 0 ==> (#[trigger] final(self).files.slots@[k]) is Some && (
                final(self).files.slots@[k]->0).refcount == (old(self).files.slots@[k]->0).refcount
                    && final(self).total_refs(k) <= old(self).total_refs(k),
            ({
                let s = old(self).files.slots@[of.handle as int]->0;
                (s.refcount == 1 && s.file.spec_bound() is None) ==> final(self).ns == old(self).ns
            }),
            ({
                let s = old(self).files.slots@[of.handle as int]->0;
                (s.refcount == 1 && s.file.spec_queue().len() == 0 && s.file.spec_peer() is None)
                    ==> final(self).files.slots@ == old(self).files.slots@.update(
                    of.handle as int,
                    None,
                )
            }),
            ({
                let s = old(self).files.slots@[of.handle as int]->0;
                (s.refcount == 1 && s.file.spec_queue().len() == 0 && s.file.spec_peer()
                    is Some) ==> ({
                    let p = s.file.spec_peer()->0 as int;
                    let ps = old(self).files.slots@[p]->0;
                    final(self).files.slots@ == old(self).files.slots@.update(
                        p,
                        Some(
                            FileSlot {
                                refcount: ps.refcount,
                                file: crate::file::spec_clear_peer(ps.file),
                            },
                        ),
                    ).update(of.handle as int, None)
                })
            }),
    {
        let ghost entry = *self;
        let ghost entry_q = *q;
        let h = of.handle;
        let rc: usize = match &self.files.slots[h] {
            Some(s) => s.refcount,
            None => 0,
        };
        if rc > 1 {
            let ghost pre = *self;
            let mut tmp: Option<FileSlot> = None;
            core::mem::swap(&mut tmp, &mut self.files.slots[h]);
            let slot = match tmp {
                Some(s) => s,
                None => {
                    proof {
                        assert(false);
                    }
                    vstd::pervasive::unreached()
                },
            };
            let file = slot.file;
            self.files.slots.set(h, Some(FileSlot { refcount: rc - 1, file }));
            proof {
                lemma_referenced_not_queued(pre, h as int);
                assert(pre.slot_inv(h as int));
                let oldslot = pre.files.slots@[h as int]->0;
                let newslot = FileSlot { refcount: (rc - 1) as usize, file: oldslot.file };
                assert(self.files.slots@ =~= pre.files.slots@.update(h as int, Some(newslot)));
                lemma_inv_payload_update(pre, *self, h as int, oldslot, newslot);
            }
            return ;
        }
        // last reference: tear the object down
        proof {
            assert(entry.slot_inv(h as int));
            lemma_desc_refs_upto_nonneg(
                entry.descriptors.slots@,
                h as int,
                entry.descriptors.slots@.len() as int,
            );
            lemma_queue_refs_upto_nonneg(entry.files.slots@, h as int, entry.files.slots@.len() as int);
            assert(entry.total_refs(h as int) == 0);
        }
        let p_opt = self.peer_of(h);
        match p_opt {
            Some(p) => {
                self.unlink_pair(h, p, q);
            },
            None => {},
        }
        proof {
            if (entry.files.slots@[h as int]->0).file.spec_bound() is None {
                assert forall|i: int| 0 <= i < self.ns@.len() implies (
                #[trigger] self.ns@[i]).handle != h by {
                    if self.ns@[i].handle == h {
                        assert(self.ns_entry_inv(i));
                        assert(false);
                    }
                }
            }
        }
        self.ns_remove_handle(h);
        let ghost after_setup = *self;
        proof {
            assert(after_setup.files.slots@[h as int] is Some);
            assert((after_setup.files.slots@[h as int]->0).refcount == 1);
            assert((after_setup.files.slots@[h as int]->0).file.spec_peer() is None);
            assert(after_setup.total_refs(h as int) == 0);
        }
        loop
            invariant
                self.inv(),
                h < FILE_TABLE_SIZE,
                self.files.slots@[h as int] is Some,
                (self.files.slots@[h as int]->0).refcount == 1,
                (self.files.slots@[h as int]->0).file.spec_peer() is None,
                self.total_refs(h as int) == 0,
                self.descriptors == entry.descriptors,
                self.condition == entry.condition,
                self.mem == entry.mem,
                self.events == entry.events,
                forall|i: int| 0 <= i < self.ns@.len() ==> (#[trigger] self.ns@[i]).handle != h,
                entry_q.queue@.is_prefix_of(q.queue@),
                self.ns == after_setup.ns,
                slot_queue(after_setup.files.slots@[h as int]).len() == 0
                    ==> self.files.slots@ == after_setup.files.slots@,
                forall|k: int|
                    count_handles(slot_queue(self.files.slots@[h as int]), k) <= count_handles(
                        slot_queue(entry.files.slots@[h as int]),
                        k,
                    ),
                forall|k: int|
                    0 <= k < FILE_TABLE_SIZE && k != h && entry.files.slots@[k] is Some
                        && count_handles(slot_queue(entry.files.slots@[h as int]), k) == 0 ==> (
                    #[trigger] self.files.slots@[k]) is Some && (
                    self.files.slots@[k]->0).refcount == (entry.files.slots@[k]->0).refcount
                        && self.total_refs(k) <= entry.total_refs(k),
            ensures
                self.inv(),
                self.files.slots@[h as int] is Some,
                (self.files.slots@[h as int]->0).refcount == 1,
                (self.files.slots@[h as int]->0).file.spec_peer() is None,
                slot_queue(self.files.slots@[h as int]).len() == 0,
                self.total_refs(h as int) == 0,
                self.descriptors == entry.descriptors,
                self.condition == entry.condition,
                self.mem == entry.mem,
                self.events == entry.events,
                forall|i: int| 0 <= i < self.ns@.len() ==> (#[trigger] self.ns@[i]).handle != h,
                entry_q.queue@.is_prefix_of(q.queue@),
                self.ns == after_setup.ns,
                slot_queue(after_setup.files.slots@[h as int]).len() == 0
                    ==> self.files.slots@ == after_setup.files.slots@,
                forall|k: int|
                    0 <= k < FILE_TABLE_SIZE && k != h && entry.files.slots@[k] is Some
                        && count_handles(slot_queue(entry.files.slots@[h as int]), k) == 0 ==> (
                    #[trigger] self.files.slots@[k]) is Some && (
                    self.files.slots@[k]->0).refcount == (entry.files.slots@[k]->0).refcount
                        && self.total_refs(k) <= entry.total_refs(k),
            decreases slot_queue(self.files.slots@[h as int]).len(),
        {
            let ghost iter_pre = *self;
            let popped = self.pop_queue_front(h);
            match popped {
                Some(chof) => {
                    let ch = chof.handle;
                    proof {
                        lemma_desc_refs_upto_nonneg(
                            self.descriptors.slots@,
                            ch as int,
                            self.descriptors.slots@.len() as int,
                        );
                        lemma_queue_refs_upto_nonneg(
                            self.files.slots@,
                            ch as int,
                            self.files.slots@.len() as int,
                        );
                        assert(self.total_refs(ch as int) == 0);
                    }
                    let cp = self.peer_of(ch);
                    match cp {
                        Some(cl) => {
                            proof {
                                assert(self.slot_inv(ch as int));
                                assert(self.peer_clause(ch as int));
                                assert(self.spec_peer_of(ch as int) == Some(cl));
                                assert(cl != h) by {
                                    if cl == h {
                                        assert(self.spec_peer_of(h as int) == Some(ch));
                                    }
                                }
                            }
                            self.unlink_pair(ch, cl, q);
                        },
                        None => {},
                    }
                    proof {
                        assert(self.files.slots@[ch as int] is Some);
                        assert((self.files.slots@[ch as int]->0).file.spec_peer() is None);
                        assert((self.files.slots@[ch as int]->0).file.spec_queue().len() == 0);
                        assert(self.total_refs(ch as int) == 0);
                        assert forall|i: int| 0 <= i < self.ns@.len() implies (
                        #[trigger] self.ns@[i]).handle != ch by {
                            if self.ns@[i].handle == ch {
                                assert(self.ns_entry_inv(i));
                                assert(false);
                            }
                        }
                    }
                    let st = crate::types::FileState { readable: false, writable: false, closed: true };
                    self.free_slot(ch);
                    q.push(StateEvent { file: ch, state: st });
                    proof {
                        let entryq = slot_queue(entry.files.slots@[h as int]);
                        let preq = slot_queue(iter_pre.files.slots@[h as int]);
                        let curq = slot_queue(self.files.slots@[h as int]);
                        lemma_count_member(preq, 0);
                        assert forall|k: int| count_handles(curq, k) <= count_handles(
                            entryq,
                            k,
                        ) by {
                            lemma_count_head(preq, k);
                        }
                        assert forall|k: int|
                            0 <= k < FILE_TABLE_SIZE && k != h && entry.files.slots@[k] is Some
                                && count_handles(entryq, k) == 0 implies (
                        #[trigger] self.files.slots@[k]) is Some && (
                        self.files.slots@[k]->0).refcount == (
                        entry.files.slots@[k]->0).refcount && self.total_refs(k)
                            <= entry.total_refs(k) by {
                            if k == ch as int {
                                lemma_count_member(preq, 0);
                                lemma_count_nonneg(entryq, k);
                                assert(false);
                            }
                        }
                    }
                },
                None => {
                    break ;
                },
            }
        }
        proof {
            assert forall|i: int| 0 <= i < self.ns@.len() implies (#[trigger] self.ns@[i]).handle
                != h by {}
            assert((self.files.slots@[h as int]->0).file.spec_queue() =~= Seq::<usize>::empty());
        }
        let st = crate::types::FileState { readable: false, writable: false, closed: true };
        self.free_slot(h);
        q.push(StateEvent { file: h, state: st });
        proof {
            let s = entry.files.slots@[h as int]->0;
            if s.file.spec_queue().len() == 0 {
                if s.file.spec_peer() is None {
                    assert(after_setup.files.slots@ == entry.files.slots@);
                    assert(self.files.slots@ =~= entry.files.slots@.update(h as int, None));
                } else {
                    let p = s.file.spec_peer()->0 as int;
                    let ps = entry.files.slots@[p]->0;
                    assert(after_setup.files.slots@ == entry.files.slots@.update(
                        h as int,
                        Some(
                            FileSlot {
                                refcount: s.refcount,
                                file: crate::file::spec_clear_peer(s.file),
                            },
                        ),
                    ).update(
                        p,
                        Some(
                            FileSlot {
                                refcount: ps.refcount,
                                file: crate::file::spec_clear_peer(ps.file),
                            },
                        ),
                    ));
                    assert(self.files.slots@ =~= entry.files.slots@.update(
                        p,
                        Some(
                            FileSlot {
                                refcount: ps.refcount,
                                file: crate::file::spec_clear_peer(ps.file),
                            },
                        ),
                    ).update(h as int, None));
                }
            }
        }
    }
}

impl SyscallContext {
    /// Publishes the deferred notifications collected during one call to
    /// the scheduler-visible event list, in enqueue order, strictly after
    /// the mutating operation has returned.
    pub fn flush_events(&mut self, q: &mut CallbackQueue)
        requires
            old(self).inv(),
        ensures
            final(self).inv(),
            final(self).files == old(self).files,
            final(self).descriptors == old(self).descriptors,
            final(self).condition == old(self).condition,
            final(self).ns == old(self).ns,
            final(self).mem == old(self).mem,
            final(self).events@ == old(self).events@ + old(q).queue@,
            final(q).queue@ == Seq::<StateEvent>::empty(),
            forall|k: int| #[trigger] final(self).total_refs(k) == old(self).total_refs(k),
    {
        let ghost pre = *self;
        q.flush(&mut self.events);
        proof {
            lemma_inv_same_views(pre, *self);
        }
    }
}

impl SyscallContext {
    /// Writes bytes into guest memory; the tables and the invariant are
    /// untouched.
    pub fn guest_write(&mut self, ptr: crate::types::PluginPtr, data: &[u8]) -> (r: Result<
        (),
        Errno,
    >)
        requires
            old(self).inv(),
        ensures
            final(self).inv(),
            final(self).files == old(self).files,
            final(self).descriptors == old(self).descriptors,
            final(self).condition == old(self).condition,
            final(self).ns == old(self).ns,
            final(self).events == old(self).events,
            forall|k: int| #[trigger] final(self).total_refs(k) == old(self).total_refs(k),
            match r {
                Ok(()) => old(self).mem.spec_valid(ptr.val as int, data@.len() as int) && final(self).mem.bytes@.len() == old(self).mem.bytes@.len() && final(self).mem.bytes@ == old(self).mem.bytes@.subrange(0, ptr.val as int) + data@ + old(self).mem.bytes@.subrange(
                    ptr.val as int + data@.len() as int,
                    old(self).mem.bytes@.len() as int,
                ),
                Err(e) => e == Errno::EFAULT && !old(self).mem.spec_valid(
                    ptr.val as int,
                    data@.len() as int,
                ) && final(self).mem == old(self).mem,
            },
    {
        let ghost pre = *self;
        let r = self.mem.write(ptr, data);
        proof {
            lemma_inv_same_views(pre, *self);
        }
        r
    }

    /// Writes an encoded socket address and its length into guest memory;
    /// the tables and the invariant are untouched.
    pub fn guest_write_sockaddr(
        &mut self,
        addr: &crate::types::Sockaddr,
        addr_ptr: crate::types::PluginPtr,
        len_ptr: crate::types::PluginPtr,
    ) -> (r: Result<(), Errno>)
        requires
            old(self).inv(),
        ensures
            final(self).inv(),
            final(self).files == old(self).files,
            final(self).descriptors == old(self).descriptors,
            final(self).condition == old(self).condition,
            final(self).ns == old(self).ns,
            final(self).events == old(self).events,
            forall|k: int| #[trigger] final(self).total_refs(k) == old(self).total_refs(k),
            r is Err ==> r == Err::<(), Errno>(Errno::EFAULT),
            final(self).mem.bytes@.len() == old(self).mem.bytes@.len(),
            (r is Ok) == crate::mem::spec_sockaddr_write_ok(
                old(self).mem.bytes@,
                crate::mem::spec_encode_sockaddr(*addr),
                addr_ptr,
                len_ptr,
            ),
            r is Ok ==> crate::mem::spec_sockaddr_written(
                old(self).mem.bytes@,
                final(self).mem.bytes@,
                crate::mem::spec_encode_sockaddr(*addr),
                addr_ptr,
                len_ptr,
            ),
    {
        let ghost pre = *self;
        let r = crate::mem::write_sockaddr(&mut self.mem, addr, addr_ptr, len_ptr);
        proof {
            lemma_inv_same_views(pre, *self);
        }
        r
    }
}

} // verus!
