//! What the work of a session shares: how much of it runs at a time, the paths
//! that are taken and the room that is promised.

use vstd::prelude::*;
use crate::network::OutputSpoolCapacity;
use crate::output::distinct_entries;
use crate::output::Reservations;
use crate::path::Part;

verus! {

pub open spec fn at_least_one(n: usize) -> usize {
    if n == 0 {
        1
    } else {
        n
    }
}

fn one_or_more(n: usize) -> (r: usize)
    ensures
        r == at_least_one(n),
{
    if n == 0 {
        1
    } else {
        n
    }
}

/// How much work runs, and how much may.
#[derive(Debug)]
pub struct DynamicLimiter {
    pub limit: usize,
    pub running: usize,
}

/// What work that asks to start is told.
#[derive(Debug, Clone, Copy, PartialEq, Eq, Structural)]
pub enum Admission {
    Start,
    Wait,
    GiveUp,
}

impl DynamicLimiter {
    /// Nothing runs, and that much may; at least one.
    pub fn new(limit: usize) -> (r: Self)
        ensures
            r.limit == at_least_one(limit),
            r.running == 0,
    {
        DynamicLimiter { limit: one_or_more(limit), running: 0 }
    }

    /// Changes how much may run. What runs goes on; where it is more than may
    /// run, nothing starts before enough of it has ended.
    pub fn set_limit(&mut self, limit: usize)
        ensures
            final(self).limit == at_least_one(limit),
            final(self).running == old(self).running,
    {
        self.limit = one_or_more(limit);
    }

    /// Starts work, if it may.
    pub fn try_acquire(&mut self, cancelled: bool) -> (r: Admission)
        ensures
            final(self).limit == old(self).limit,
            r == (if cancelled {
                Admission::GiveUp
            } else if old(self).running < old(self).limit {
                Admission::Start
            } else {
                Admission::Wait
            }),
            final(self).running == (if r == Admission::Start {
                old(self).running + 1
            } else {
                old(self).running as int
            }),
            r == Admission::Start ==> final(self).running <= final(self).limit,
    {
        if cancelled {
            Admission::GiveUp
        } else if self.running < self.limit {
            self.running = self.running + 1;
            Admission::Start
        } else {
            Admission::Wait
        }
    }

    /// Work has ended.
    pub fn release(&mut self)
        requires
            old(self).running > 0,
        ensures
            final(self).running == old(self).running - 1,
            final(self).limit == old(self).limit,
    {
        self.running = self.running - 1;
    }
}

/// What the work of a session shares.
#[derive(Debug)]
pub struct ConversionResources {
    pub cpu: DynamicLimiter,
    pub output_reservations: Reservations,
    pub output_spool: OutputSpoolCapacity,
    /// How many files are converted at a time.
    pub parallel: usize,
    /// How many files are looked at at a time; it stays what it was at first.
    pub probe_slots: usize,
}

impl ConversionResources {
    /// What a session starts with.
    pub fn new(parallel: usize) -> (r: Self)
        ensures
            r.parallel == at_least_one(parallel),
            r.probe_slots == at_least_one(parallel),
            r.cpu.limit == at_least_one(parallel),
            r.cpu.running == 0,
            r.output_reservations@ == Map::<Seq<Part>, u64>::empty(),
            distinct_entries(r.output_reservations.entries@),
            r.output_spool.reserved == 0,
    {
        let parallel: usize = one_or_more(parallel);
        ConversionResources {
            cpu: DynamicLimiter::new(parallel),
            output_reservations: Reservations::new(),
            output_spool: OutputSpoolCapacity::new(),
            parallel,
            probe_slots: parallel,
        }
    }

    /// Changes how many files are converted at a time.
    pub fn update_parallel(&mut self, parallel: usize)
        ensures
            final(self).parallel == at_least_one(parallel),
            final(self).cpu.limit == at_least_one(parallel),
            final(self).cpu.running == old(self).cpu.running,
            final(self).output_reservations == old(self).output_reservations,
            final(self).output_spool == old(self).output_spool,
            final(self).probe_slots == old(self).probe_slots,
    {
        let parallel: usize = one_or_more(parallel);
        self.parallel = parallel;
        self.cpu.set_limit(parallel);
    }

    /// How many files are converted at a time; at least one.
    pub fn parallel(&self) -> (r: usize)
        ensures
            r == at_least_one(self.parallel),
    {
        one_or_more(self.parallel)
    }
}

/// How many files are looked at at a time: one where some lie on the network, so
/// that they do not share its bandwidth.
pub fn io_parallel(is_network: bool, cpu_parallel: usize) -> (r: usize)
    ensures
        r == (if is_network {
            1
        } else {
            cpu_parallel
        }),
{
    if is_network {
        1
    } else {
        cpu_parallel
    }
}

/// How many threads each conversion has: the processors, shared evenly; four of
/// them where their number is unknown.
pub fn threads_per_job(processors: Option<usize>, cpu_parallel: usize) -> (r: usize)
    requires
        cpu_parallel > 0,
    ensures
        r == share_of(processors, cpu_parallel),
{
    let count: usize = match processors {
        Some(n) => n,
        None => 4,
    };
    one_or_more(count / cpu_parallel)
}

/// What each of some conversions has of the processors.
pub open spec fn share_of(processors: Option<usize>, cpu_parallel: usize) -> usize {
    at_least_one(
        (match processors {
            Some(n) => n,
            None => 4,
        } / cpu_parallel) as usize,
    )
}

/// The processors are shared evenly: together the conversions have no more than
/// there are, and with one more each they would; each has one at least.
pub proof fn processors_are_shared(n: usize, cpu_parallel: usize)
    requires
        cpu_parallel > 0,
    ensures
        share_of(Some(n), cpu_parallel) >= 1,
        n >= cpu_parallel ==> share_of(Some(n), cpu_parallel) * cpu_parallel <= n,
        n < (share_of(Some(n), cpu_parallel) + 1) * cpu_parallel,
        share_of(None, 1) == 4,
        at_least_one(0) == 1,
        n > 0 ==> at_least_one(n) == n,
{
    let a = n as int;
    let b = cpu_parallel as int;
    let q = a / b;
    assert(q * b <= a && a < (q + 1) * b) by (nonlinear_arith)
        requires
            a >= 0,
            b > 0,
            q == a / b,
    ;
    if a >= b {
        assert(q >= 1) by (nonlinear_arith)
            requires
                a >= b,
                b > 0,
                a < (q + 1) * b,
        ;
    } else {
        assert(q == 0) by (nonlinear_arith)
            requires
                0 <= a < b,
                q == a / b,
        ;
        assert(a < (1 + 1) * b) by (nonlinear_arith)
            requires
                0 <= a < b,
        ;
    }
}

} // verus!
