//! The managed-process table of the orchestrator.
//!
//! Every spawned builder-tool process is tracked here by pid.  A process
//! moves along `Spawned → Streaming → Exited(code)` (exit may also be
//! observed before streaming starts) and never leaves `Exited`; an exited
//! entry may be reaped from the table.  The table itself is plain state
//! with an invariant — no pid twice — and exact contracts on every
//! operation; spawning, pumping output and observing exits are I/O and
//! live in the application, which mirrors its `Child` handles against
//! these entries.

use vstd::prelude::*;

verus! {

/// Where a managed process stands in its lifetime.
#[derive(Clone, Copy, Debug, PartialEq, Eq, Structural)]
pub enum ProcessStatus {
    /// The process was spawned; its output is not being consumed yet.
    Spawned,
    /// Its combined output is being streamed to the caller.
    Streaming,
    /// It exited with the given code.
    Exited(i32),
}

/// One tracked process: its pid and where it stands.
#[derive(Clone, Copy, Debug, PartialEq, Eq, Structural)]
pub struct ManagedProcess {
    pub pid: u64,
    pub status: ProcessStatus,
}

/// The lawful status moves: into streaming only from `Spawned`, into
/// `Exited` from anywhere but `Exited`, and nothing out of `Exited`.
pub open spec fn can_transition(from: ProcessStatus, to: ProcessStatus) -> bool {
    match (from, to) {
        (ProcessStatus::Spawned, ProcessStatus::Streaming) => true,
        (ProcessStatus::Spawned, ProcessStatus::Exited(_)) => true,
        (ProcessStatus::Streaming, ProcessStatus::Exited(_)) => true,
        _ => false,
    }
}

/// The index of the entry for `pid`, if one is there.
pub open spec fn find_pid(s: Seq<ManagedProcess>, pid: u64) -> Option<int>
    decreases s.len(),
{
    if s.len() == 0 {
        None
    } else if s[0].pid == pid {
        Some(0int)
    } else {
        match find_pid(s.drop_first(), pid) {
            Some(i) => Some(i + 1),
            None => None,
        }
    }
}

/// `find_pid` finds exactly the first entry for `pid`.
pub proof fn lemma_find_pid(s: Seq<ManagedProcess>, pid: u64)
    ensures
        match find_pid(s, pid) {
            Some(i) => 0 <= i < s.len() && s[i].pid == pid && forall|j: int|
                0 <= j < i ==> s[j].pid != pid,
            None => forall|j: int| 0 <= j < s.len() ==> s[j].pid != pid,
        },
    decreases s.len(),
{
    if s.len() > 0 && s[0].pid != pid {
        lemma_find_pid(s.drop_first(), pid);
        assert(forall|j: int| 1 <= j < s.len() ==> s[j] == s.drop_first()[j - 1]);
    }
}

/// The process table: one entry per tracked pid.
pub struct ProcessTable {
    entries: Vec<ManagedProcess>,
}

impl View for ProcessTable {
    type V = Seq<ManagedProcess>;

    closed spec fn view(&self) -> Seq<ManagedProcess> {
        self.entries@
    }
}

impl ProcessTable {
    /// No pid is tracked twice.
    pub open spec fn wf(&self) -> bool {
        forall|i: int, j: int| 0 <= i < j < self@.len() ==> self@[i].pid != self@[j].pid
    }

    /// An empty table.
    pub fn new() -> (t: ProcessTable)
        ensures
            t@.len() == 0,
            t.wf(),
    {
        ProcessTable { entries: Vec::new() }
    }

    /// How many processes are tracked.
    pub fn len(&self) -> (n: usize)
        ensures
            n == self@.len(),
    {
        self.entries.len()
    }

    /// Looks the entry for `pid` up.
    pub fn status_of(&self, pid: u64) -> (r: Option<ProcessStatus>)
        ensures
            (match find_pid(self@, pid) {
                Some(i) => r == Some(self@[i].status),
                None => r is None,
            }),
    {
        proof {
            lemma_find_pid(self@, pid);
        }
        let mut i: usize = 0;
        while i < self.entries.len()
            invariant
                i <= self.entries.len(),
                forall|j: int| 0 <= j < i ==> self.entries@[j].pid != pid,
            decreases self.entries.len() - i,
        {
            if self.entries[i].pid == pid {
                proof {
                    lemma_find_pid_at(self@, pid, i as int);
                }
                return Some(self.entries[i].status);
            }
            i = i + 1;
        }
        None
    }

    /// Tracks a newly spawned process.  Nothing happens, and `false` comes
    /// back, when its pid is already taken.
    pub fn register(&mut self, p: ManagedProcess) -> (r: bool)
        requires
            old(self).wf(),
        ensures
            final(self).wf(),
            r == (find_pid(old(self)@, p.pid) is None),
            (r ==> final(self)@ == old(self)@.push(p)),
            (!r ==> final(self)@ == old(self)@),
    {
        proof {
            lemma_find_pid(self@, p.pid);
        }
        if self.contains_pid(p.pid) {
            return false;
        }
        self.entries.push(p);
        true
    }

    /// Whether an entry for `pid` is there.
    pub fn contains_pid(&self, pid: u64) -> (r: bool)
        ensures
            r == (find_pid(self@, pid) is Some),
    {
        proof {
            lemma_find_pid(self@, pid);
        }
        let mut i: usize = 0;
        while i < self.entries.len()
            invariant
                i <= self.entries.len(),
                forall|j: int| 0 <= j < i ==> self.entries@[j].pid != pid,
            decreases self.entries.len() - i,
        {
            if self.entries[i].pid == pid {
                proof {
                    lemma_find_pid_at(self@, pid, i as int);
                }
                return true;
            }
            i = i + 1;
        }
        false
    }

    /// Moves the process for `pid` to `status`.  Nothing happens, and
    /// `false` comes back, when the pid is unknown or the move is not a
    /// lawful transition — in particular, an `Exited` entry never changes.
    pub fn set_status(&mut self, pid: u64, status: ProcessStatus) -> (r: bool)
        requires
            old(self).wf(),
        ensures
            final(self).wf(),
            (match find_pid(old(self)@, pid) {
                Some(i) => {
                    &&& r == can_transition(old(self)@[i].status, status)
                    &&& (r ==> final(self)@ == old(self)@.update(
                        i,
                        ManagedProcess { pid, status },
                    ))
                    &&& (!r ==> final(self)@ == old(self)@)
                },
                None => !r && final(self)@ == old(self)@,
            }),
    {
        proof {
            lemma_find_pid(self@, pid);
        }
        let mut i: usize = 0;
        while i < self.entries.len()
            invariant
                i <= self.entries.len(),
                old(self).wf(),
                self@ == old(self)@,
                forall|j: int| 0 <= j < i ==> self.entries@[j].pid != pid,
            decreases self.entries.len() - i,
        {
            if self.entries[i].pid == pid {
                proof {
                    lemma_find_pid_at(self@, pid, i as int);
                }
                let cur = self.entries[i].status;
                let allowed = match (cur, status) {
                    (ProcessStatus::Spawned, ProcessStatus::Streaming) => true,
                    (ProcessStatus::Spawned, ProcessStatus::Exited(_)) => true,
                    (ProcessStatus::Streaming, ProcessStatus::Exited(_)) => true,
                    _ => false,
                };
                if allowed {
                    self.entries.set(i, ManagedProcess { pid, status });
                    proof {
                        assert forall|a: int, b: int|
                            0 <= a < b < self@.len() implies self@[a].pid != self@[b].pid by {
                            assert(old(self)@[a].pid != old(self)@[b].pid);
                        }
                    }
                    return true;
                }
                return false;
            }
            i = i + 1;
        }
        false
    }

    /// Reaps the entry for `pid`, which must have exited.  Nothing happens,
    /// and `false` comes back, when the pid is unknown or the process has
    /// not exited.
    pub fn remove_exited(&mut self, pid: u64) -> (r: bool)
        requires
            old(self).wf(),
        ensures
            final(self).wf(),
            (match find_pid(old(self)@, pid) {
                Some(i) => {
                    &&& r == (old(self)@[i].status matches ProcessStatus::Exited(_))
                    &&& (r ==> final(self)@ == old(self)@.remove(i))
                    &&& (!r ==> final(self)@ == old(self)@)
                },
                None => !r && final(self)@ == old(self)@,
            }),
    {
        proof {
            lemma_find_pid(self@, pid);
        }
        let mut i: usize = 0;
        while i < self.entries.len()
            invariant
                i <= self.entries.len(),
                old(self).wf(),
                self@ == old(self)@,
                forall|j: int| 0 <= j < i ==> self.entries@[j].pid != pid,
            decreases self.entries.len() - i,
        {
            if self.entries[i].pid == pid {
                proof {
                    lemma_find_pid_at(self@, pid, i as int);
                }
                let exited = match self.entries[i].status {
                    ProcessStatus::Exited(_) => true,
                    _ => false,
                };
                if exited {
                    self.entries.remove(i);
                    proof {
                        assert forall|a: int, b: int|
                            0 <= a < b < self@.len() implies self@[a].pid != self@[b].pid by {
                            let oa = if a < i as int {
                                a
                            } else {
                                a + 1
                            };
                            let ob = if b < i as int {
                                b
                            } else {
                                b + 1
                            };
                            assert(self@[a] == old(self)@[oa]);
                            assert(self@[b] == old(self)@[ob]);
                            assert(old(self)@[oa].pid != old(self)@[ob].pid);
                        }
                    }
                    return true;
                }
                return false;
            }
            i = i + 1;
        }
        false
    }
}

/// A first entry for `pid` is what `find_pid` returns.
proof fn lemma_find_pid_at(s: Seq<ManagedProcess>, pid: u64, i: int)
    requires
        0 <= i < s.len(),
        s[i].pid == pid,
        forall|j: int| 0 <= j < i ==> s[j].pid != pid,
    ensures
        find_pid(s, pid) == Some(i),
    decreases s.len(),
{
    if i > 0 {
        lemma_find_pid_at(s.drop_first(), pid, i - 1);
    }
}

} // verus!
