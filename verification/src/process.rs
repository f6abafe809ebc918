//! The processes of a session that are running, so that they can be paused and
//! stopped.

use vstd::prelude::*;

verus! {

/// The processes that are running.
#[derive(Debug)]
pub struct ProcessTracker {
    pub running: Vec<u32>,
}

/// A process that was reported as started, and that leaves the list once.
#[derive(Debug)]
pub struct ProcessRegistration {
    pub pid: Option<u32>,
}

/// The first place of a process in the list.
pub open spec fn first_place(running: Seq<u32>, pid: u32) -> Option<int> {
    running.index_of_first(pid)
}

/// The list without one entry of a process; the last entry takes its place.
pub open spec fn without_one(running: Seq<u32>, pid: u32) -> Seq<u32> {
    match first_place(running, pid) {
        Some(i) => running.update(i, running.last()).drop_last(),
        None => running,
    }
}

impl ProcessTracker {
    /// No process is running.
    pub fn new() -> (r: Self)
        ensures
            r.running@ == Seq::<u32>::empty(),
    {
        ProcessTracker { running: Vec::new() }
    }

    /// A process was started, if there is one.
    pub fn register(&mut self, pid: Option<u32>) -> (r: Option<ProcessRegistration>)
        ensures
            match pid {
                Some(p) => final(self).running@ == old(self).running@.push(p) && r == Some(
                    ProcessRegistration { pid: Some(p) },
                ),
                None => final(self).running@ == old(self).running@ && r is None,
            },
    {
        match pid {
            Some(p) => {
                self.running.push(p);
                Some(ProcessRegistration { pid: Some(p) })
            },
            None => None,
        }
    }

    /// A process has ended.
    fn exited(&mut self, pid: u32)
        ensures
            final(self).running@ == without_one(old(self).running@, pid),
    {
        let mut i: usize = 0;
        while i < self.running.len()
            invariant
                i <= self.running@.len(),
                self.running@ == old(self).running@,
                forall|k: int| 0 <= k < i ==> self.running@[k] != pid,
            decreases self.running@.len() - i,
        {
            if self.running[i] == pid {
                proof {
                    assert(self.running@.contains(pid));
                    self.running@.index_of_first_ensures(pid);
                }
                self.running.swap_remove(i);
                return;
            }
            i = i + 1;
        }
        proof {
            assert(!self.running@.contains(pid));
            self.running@.index_of_first_ensures(pid);
        }
    }
}

impl ProcessRegistration {
    /// The process has ended; a second call changes nothing.
    pub fn exit(&mut self, tracker: &mut ProcessTracker)
        ensures
            final(self).pid is None,
            match old(self).pid {
                Some(p) => final(tracker).running@ == without_one(old(tracker).running@, p),
                None => final(tracker).running@ == old(tracker).running@,
            },
    {
        match self.pid {
            Some(p) => {
                tracker.exited(p);
                self.pid = None;
            },
            None => {},
        }
    }
}

/// A process that was reported as started and ended leaves the others as they
/// were, up to their order.
pub proof fn registration_is_undone_by_exit(running: Seq<u32>, pid: u32)
    ensures
        without_one(running.push(pid), pid).to_multiset() == running.to_multiset(),
{
    let s = running.push(pid);
    assert(s[running.len() as int] == pid);
    assert(s.contains(pid));
    s.index_of_first_ensures(pid);
    let i = s.index_of_first(pid)->0;
    let r = without_one(s, pid);
    assert(s.last() == pid);
    if i == running.len() {
        assert(r =~= running);
    } else {
        assert(running[i] == pid);
        assert(r =~= running);
    }
}

} // verus!
