//! Per-process accounting: the syscall counters, the start-of-image
//! timestamp, and the stride-scheduling key.

use vstd::prelude::*;

verus! {

/// Number of distinct syscall identifiers counted per process.
pub const MAX_SYSCALL_NUM: usize = 500;

/// The fixed stride numerator: a task of weight `w` advances its `pass`
/// by `BIG_STRIDE / w` on every scheduling turn, so a larger weight means
/// a smaller stride and a proportionally larger CPU share.
pub const BIG_STRIDE: u64 = 0x10_0000;

/// The stride a task of weight `w` accumulates per scheduling turn.
pub open spec fn stride_of(weight: int) -> int {
    BIG_STRIDE as int / weight
}

/// The scheduling key of one process: lexicographic on `(round, pass)`,
/// ascending; the smallest key is scheduled next. `round` counts epochs of
/// `pass` wraparound so the order survives unbounded run time.
#[derive(Clone, Copy, Debug)]
pub struct Priority {
    /// 64-bit virtual-runtime accumulator.
    pub pass: u64,
    /// The weight: larger weight, larger CPU share. Always at least 2.
    pub priority: usize,
    /// Wraparound-epoch counter, incremented whenever `pass` overflows.
    pub round: u32,
}

/// Strict ascending order on scheduling keys: lexicographic on `(round, pass)`.
pub open spec fn key_lt(a: Priority, b: Priority) -> bool {
    a.round < b.round || (a.round == b.round && a.pass < b.pass)
}

/// Equality of scheduling keys (the weight is not part of the key).
pub open spec fn key_eq(a: Priority, b: Priority) -> bool {
    a.round == b.round && a.pass == b.pass
}

/// Non-strict order on scheduling keys.
pub open spec fn key_le(a: Priority, b: Priority) -> bool {
    key_lt(a, b) || key_eq(a, b)
}

impl Default for Priority {
    /// The key of a process never granted CPU time: `(round, pass) = (0, 0)`,
    /// default weight 16.
    fn default() -> (r: Self)
        ensures
            r.pass == 0,
            r.priority == 16,
            r.round == 0,
    {
        Priority { pass: 0, priority: 16, round: 0 }
    }
}

impl Priority {
    /// One scheduling turn: add `BIG_STRIDE / weight` to `pass`, wrapping
    /// modulo 2^64 and stepping `round` up when the addition overflows.
    /// The key `(round, pass)` never decreases.
    pub fn update_pass(&mut self)
        requires
            old(self).priority >= 2,
            // The design leaves the behaviour on epoch-counter exhaustion
            // open; this core never reaches it.
            old(self).pass + stride_of(old(self).priority as int) > u64::MAX
                ==> old(self).round < u32::MAX,
        ensures
            final(self).priority == old(self).priority,
            old(self).pass + stride_of(old(self).priority as int) <= u64::MAX ==> {
                &&& final(self).pass == old(self).pass + stride_of(old(self).priority as int)
                &&& final(self).round == old(self).round
            },
            old(self).pass + stride_of(old(self).priority as int) > u64::MAX ==> {
                &&& final(self).pass
                    == old(self).pass + stride_of(old(self).priority as int) - u64::MAX - 1
                &&& final(self).round == old(self).round + 1
            },
            key_le(*old(self), *final(self)),
    {
        let stride: u64 = BIG_STRIDE / (self.priority as u64);
        if self.pass <= u64::MAX - stride {
            self.pass = self.pass + stride;
        } else {
            self.round = self.round + 1;
            self.pass = self.pass - (u64::MAX - stride) - 1;
        }
    }
}

impl PartialEq for Priority {
    /// Two keys are equal when `(round, pass)` agree; the weight is not
    /// part of the key.
    fn eq(&self, other: &Self) -> (r: bool) {
        self.round == other.round && self.pass == other.pass
    }
}

impl vstd::std_specs::cmp::PartialEqSpecImpl for Priority {
    open spec fn obeys_eq_spec() -> bool {
        true
    }

    open spec fn eq_spec(&self, other: &Self) -> bool {
        key_eq(*self, *other)
    }
}

impl PartialOrd for Priority {
    /// Keys are totally ordered, lexicographically on `(round, pass)`.
    fn partial_cmp(&self, other: &Self) -> (r: Option<core::cmp::Ordering>) {
        if self.round != other.round {
            if self.round < other.round {
                Some(core::cmp::Ordering::Less)
            } else {
                Some(core::cmp::Ordering::Greater)
            }
        } else if self.pass < other.pass {
            Some(core::cmp::Ordering::Less)
        } else if self.pass == other.pass {
            Some(core::cmp::Ordering::Equal)
        } else {
            Some(core::cmp::Ordering::Greater)
        }
    }
}

impl vstd::std_specs::cmp::PartialOrdSpecImpl for Priority {
    open spec fn obeys_partial_cmp_spec() -> bool {
        true
    }

    open spec fn partial_cmp_spec(&self, other: &Self) -> Option<core::cmp::Ordering> {
        if key_lt(*self, *other) {
            Some(core::cmp::Ordering::Less)
        } else if key_eq(*self, *other) {
            Some(core::cmp::Ordering::Equal)
        } else {
            Some(core::cmp::Ordering::Greater)
        }
    }
}

/// The accounting record owned by one process.
#[derive(Debug)]
pub struct Info {
    /// Table of 32-bit counters indexed by syscall identifier.
    pub syscall_times: Vec<u32>,
    /// Millisecond timestamp of when the current program image began executing.
    pub start_time: usize,
    /// The scheduling key.
    pub priority: Priority,
}

impl Info {
    /// Well-formedness: the counter table has its fixed size and the weight
    /// never drops below 2.
    pub open spec fn wf(self) -> bool {
        self.syscall_times.len() == MAX_SYSCALL_NUM && self.priority.priority >= 2
    }

    /// Replace the scheduling weight. The accumulated `pass`/`round` history
    /// is kept: fairness is relative to history, not reset on re-weighting.
    pub fn set_priority(&mut self, p0: usize)
        requires
            p0 >= 2,
        ensures
            final(self).priority.priority == p0,
            final(self).priority.pass == old(self).priority.pass,
            final(self).priority.round == old(self).priority.round,
            final(self).syscall_times == old(self).syscall_times,
            final(self).start_time == old(self).start_time,
    {
        self.priority.priority = p0;
    }

    /// Stamp `start_time` with the current clock reading, in milliseconds.
    /// Called once per successful exec/spawn.
    pub fn record_start_time(&mut self, now_us: usize)
        ensures
            final(self).start_time == now_us as int / 1000,
            final(self).syscall_times == old(self).syscall_times,
            final(self).priority == old(self).priority,
    {
        let time: usize = now_us / 1000;
        self.start_time = time;
    }

    /// Count one dispatched syscall.
    pub fn record_syscall(&mut self, syscall_id: usize)
        requires
            syscall_id < old(self).syscall_times.len(),
            old(self).syscall_times[syscall_id as int] < u32::MAX,
        ensures
            final(self).syscall_times@
                == old(self).syscall_times@.update(
                    syscall_id as int,
                    (old(self).syscall_times[syscall_id as int] + 1) as u32,
                ),
            final(self).start_time == old(self).start_time,
            final(self).priority == old(self).priority,
    {
        let count: u32 = self.syscall_times[syscall_id];
        self.syscall_times[syscall_id] = count + 1;
    }

    /// Milliseconds elapsed since the current program image began executing.
    pub fn during_time(&self, now_us: usize) -> (r: usize)
        requires
            // The clock is monotonic since boot and `start_time` was read
            // from the same clock.
            self.start_time <= now_us as int / 1000,
        ensures
            r == now_us as int / 1000 - self.start_time,
    {
        now_us / 1000 - self.start_time
    }
}

impl Default for Info {
    /// A fresh record: all counters zero, start time zero, default key.
    fn default() -> (r: Self)
        ensures
            r.syscall_times@ == Seq::<u32>::new(MAX_SYSCALL_NUM as nat, |i: int| 0u32),
            r.start_time == 0,
            r.priority.pass == 0,
            r.priority.priority == 16,
            r.priority.round == 0,
            r.wf(),
    {
        Info {
            syscall_times: zeroed_counters(),
            start_time: 0,
            priority: Default::default(),
        }
    }
}

/// A counter table of the fixed size, all zero.
pub fn zeroed_counters() -> (r: Vec<u32>)
    ensures
        r@ == Seq::<u32>::new(MAX_SYSCALL_NUM as nat, |i: int| 0u32),
{
    let mut r: Vec<u32> = Vec::new();
    let mut i: usize = 0;
    while i < MAX_SYSCALL_NUM
        invariant
            i <= MAX_SYSCALL_NUM,
            r@.len() == i,
            forall|j: int| 0 <= j < i ==> r@[j] == 0u32,
        decreases MAX_SYSCALL_NUM - i,
    {
        r.push(0u32);
        i = i + 1;
    }
    proof {
        assert(r@ =~= Seq::<u32>::new(MAX_SYSCALL_NUM as nat, |i: int| 0u32));
    }
    r
}

} // verus!
