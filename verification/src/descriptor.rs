//! The per-process descriptor table: small integer handles bound to shared
//! file-object handles, with duplication and close-on-exec flags.

use vstd::prelude::*;
use crate::file::OpenFile;
use crate::types::DescriptorFlags;

verus! {

/// Number of descriptor slots a process may use at once.
pub const DESC_TABLE_SIZE: usize = 1024;

/// What a descriptor is bound to: a natively handled open file, or an
/// opaque legacy (non-native) file whose system calls all defer.
#[derive(Debug, PartialEq, Eq, Structural)]
pub enum CompatFile {
    New(OpenFile),
    Legacy(LegacyFile),
}

/// A file managed entirely by the legacy collaborator; the native layer
/// only stores the token.
#[derive(Debug, PartialEq, Eq, Structural)]
pub struct LegacyFile {
    pub token: u64,
}

/// One descriptor: a file binding plus descriptor-local flags.
#[derive(Debug, PartialEq, Eq, Structural)]
pub struct Descriptor {
    pub file: CompatFile,
    pub flags: DescriptorFlags,
}

impl Descriptor {
    pub fn new(file: CompatFile) -> (r: Descriptor)
        ensures
            r.file == file,
            r.flags == (DescriptorFlags { cloexec: false }),
    {
        Descriptor { file, flags: DescriptorFlags { cloexec: false } }
    }

    pub fn set_flags(&mut self, flags: DescriptorFlags)
        ensures
            *final(self) == (Descriptor { flags, ..*old(self) }),
    {
        self.flags = flags;
    }
}

/// The fd -> descriptor mapping of one process.
#[derive(Debug, PartialEq, Eq)]
pub struct DescriptorTable {
    pub slots: Vec<Option<Descriptor>>,
}

impl DescriptorTable {
    pub fn new() -> (r: DescriptorTable)
        ensures
            r.slots@.len() == DESC_TABLE_SIZE,
            forall|i: int| 0 <= i < DESC_TABLE_SIZE ==> r.slots@[i] is None,
    {
        let mut slots: Vec<Option<Descriptor>> = Vec::new();
        let mut i: usize = 0;
        while i < DESC_TABLE_SIZE
            invariant
                i <= DESC_TABLE_SIZE,
                slots@.len() == i,
                forall|j: int| 0 <= j < i ==> slots@[j] is None,
            decreases DESC_TABLE_SIZE - i,
        {
            slots.push(None);
            i = i + 1;
        }
        DescriptorTable { slots }
    }

    /// The lowest free slot, if the table is not exhausted.
    pub fn find_free(&self) -> (r: Option<usize>)
        requires
            self.slots@.len() == DESC_TABLE_SIZE,
        ensures
            match r {
                Some(fd) => fd < DESC_TABLE_SIZE && self.slots@[fd as int] is None
                    && forall|j: int| 0 <= j < fd ==> self.slots@[j] is Some,
                None => forall|j: int| 0 <= j < DESC_TABLE_SIZE ==> self.slots@[j] is Some,
            },
    {
        let mut i: usize = 0;
        while i < DESC_TABLE_SIZE
            invariant
                i <= DESC_TABLE_SIZE,
                self.slots@.len() == DESC_TABLE_SIZE,
                forall|j: int| 0 <= j < i ==> self.slots@[j] is Some,
            decreases DESC_TABLE_SIZE - i,
        {
            if self.slots[i].is_none() {
                return Some(i);
            }
            i = i + 1;
        }
        None
    }
}

} // verus!
