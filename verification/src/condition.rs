//! Blocking-condition machinery: the condition a suspended system call
//! waits on, holding the trigger and the active-file lifetime guard.

use vstd::prelude::*;
use crate::file::OpenFile;
use crate::types::Trigger;

verus! {

/// The suspended-syscall condition retained by the calling thread while it
/// is blocked. The active file keeps the watched object alive even if the
/// originating descriptor is closed or reused before resumption.
#[derive(Debug, PartialEq, Eq, Structural)]
pub struct SysCallCondition {
    pub trigger: Trigger,
    /// One owned reference to the file the call operates on.
    pub active_file: Option<OpenFile>,
}

impl SysCallCondition {
    pub fn new(trigger: Trigger) -> (r: SysCallCondition)
        ensures
            r.trigger == trigger,
            r.active_file is None,
    {
        SysCallCondition { trigger, active_file: None }
    }

    pub fn set_active_file(&mut self, file: OpenFile)
        ensures
            *final(self) == (SysCallCondition { active_file: Some(file), ..*old(self) }),
    {
        self.active_file = Some(file);
    }

    pub fn active_file(&self) -> (r: &Option<OpenFile>)
        ensures
            r == self.active_file,
    {
        &self.active_file
    }
}

} // verus!
