//! The process entity (task control block) and the table of all live
//! processes. Ownership runs parent-to-child: a parent's `children` list
//! owns its children, and a child's `parent` is a non-owning back
//! reference, realised here as a pid into the table. The table invariant
//! `wf` keeps both directions consistent so that no live process's parent
//! reference ever dangles.

use vstd::prelude::*;
use crate::info::Info;
use crate::mm::MemorySet;

verus! {

broadcast use vstd::seq_lib::lemma_seq_contains_after_push, vstd::seq_lib::lemma_seq_concat_contains_all_elements;

/// Lifecycle state of one process. `Zombie` is terminal: the process has
/// exited but its exit code has not yet been collected by a wait.
#[derive(Clone, Copy, Debug, PartialEq, Eq, Structural)]
pub enum TaskStatus {
    Ready,
    Running,
    Zombie,
}

/// The CPU-visible register state used to resume a process, as far as this
/// core reads or writes it: the syscall-return register `a0` and the entry
/// point of the running image. It is replaced wholesale on `exec`/`spawn`.
#[derive(Clone, Copy, Debug, PartialEq, Eq, Structural)]
pub struct TrapContext {
    /// What the process observes as the return value of its last syscall.
    pub a0: isize,
    /// The image handle whose entry point the context resumes at.
    pub entry: usize,
}

/// One process: identity, lifecycle status, process-tree links, address
/// space, saved trap context and accounting record.
#[derive(Debug)]
pub struct TaskControlBlock {
    /// Unique, immutable, assigned at creation, never reused while any
    /// reference to the process survives.
    pub pid: usize,
    pub status: TaskStatus,
    /// Meaningful only once `status` is `Zombie`.
    pub exit_code: i32,
    /// Pid of the creating process; none only for the root.
    pub parent: Option<usize>,
    /// Pids of the owned children, removed exactly once each, by reaping.
    pub children: Vec<usize>,
    pub memory_set: MemorySet,
    pub trap_cx: TrapContext,
    pub info: Info,
}

impl TaskControlBlock {
    pub fn getpid(&self) -> (r: usize)
        ensures
            r == self.pid,
    {
        self.pid
    }

    pub fn is_zombie(&self) -> (r: bool)
        ensures
            r == (self.status is Zombie),
    {
        match self.status {
            TaskStatus::Zombie => true,
            _ => false,
        }
    }

    /// The current `pass` of the scheduling key, read by the ready queue's
    /// insertion policy.
    pub fn pass(&self) -> (r: u64)
        ensures
            r == self.info.priority.pass,
    {
        self.info.priority.pass
    }

    /// Replace this process's scheduling weight; the accumulated key and
    /// everything else stay.
    pub fn set_priority(&mut self, prio: usize)
        requires
            prio >= 2,
        ensures
            final(self).info.priority.priority == prio,
            final(self).info.priority.pass == old(self).info.priority.pass,
            final(self).info.priority.round == old(self).info.priority.round,
            final(self).info.syscall_times == old(self).info.syscall_times,
            final(self).info.start_time == old(self).info.start_time,
            *final(self) == (TaskControlBlock { info: final(self).info, ..*old(self) }),
    {
        self.info.set_priority(prio);
    }

    /// Stamp the start of the current program image from the external
    /// clock's reading.
    pub fn record_start(&mut self, now_us: usize)
        ensures
            final(self).info.start_time == now_us as int / 1000,
            final(self).info.syscall_times == old(self).info.syscall_times,
            final(self).info.priority == old(self).info.priority,
            *final(self) == (TaskControlBlock { info: final(self).info, ..*old(self) }),
    {
        self.info.record_start_time(now_us);
    }

    /// Replace this process's program image in place: the address space
    /// and trap context are discarded and rebuilt for `entry`. Pid, parent,
    /// children, status and accounting are untouched.
    pub fn exec(&mut self, entry: usize)
        ensures
            final(self).memory_set.pages@.len() == 0,
            forall|v: usize| !final(self).memory_set.is_mapped(v),
            final(self).trap_cx == (TrapContext { a0: 0, entry }),
            final(self).pid == old(self).pid,
            final(self).status == old(self).status,
            final(self).exit_code == old(self).exit_code,
            final(self).parent == old(self).parent,
            final(self).children == old(self).children,
            final(self).info == old(self).info,
    {
        self.memory_set = MemorySet::new();
        self.trap_cx = TrapContext { a0: 0, entry };
    }
}

/// `q` is `p` with its children list replaced by `ch` and every other
/// field kept.
pub open spec fn with_children(p: TaskControlBlock, q: TaskControlBlock, ch: Seq<usize>) -> bool {
    &&& q.pid == p.pid
    &&& q.status == p.status
    &&& q.exit_code == p.exit_code
    &&& q.parent == p.parent
    &&& q.children@ == ch
    &&& q.memory_set == p.memory_set
    &&& q.trap_cx == p.trap_cx
    &&& q.info == p.info
}

/// The table of all processes whose existence has not been fully released:
/// slot `i` holds the process with pid `i`, or nothing once that process
/// has been reaped. Pids are indices, so they are never reused.
#[derive(Debug)]
pub struct ProcTable {
    pub procs: Vec<Option<TaskControlBlock>>,
}

impl ProcTable {
    /// Pid `i` names a live (unreaped) process.
    pub open spec fn live(self, i: int) -> bool {
        0 <= i < self.procs@.len() && self.procs@[i] is Some
    }

    /// The process with pid `i`.
    pub open spec fn tcb(self, i: int) -> TaskControlBlock {
        self.procs@[i]->0
    }

    /// Everything `wf` asks of one slot: pid equals index, the accounting
    /// record is well-formed, a zombie has given all children away, the
    /// parent back-reference of every non-root resolves to a live process
    /// whose children list holds it, and the children list holds only live
    /// processes that point back here, each at most once.
    pub open spec fn slot_ok(self, i: int) -> bool {
        self.procs@[i] is Some ==> {
            let p = self.procs@[i]->0;
            &&& p.pid == i
            &&& p.info.wf()
            &&& (p.status is Zombie ==> p.children@.len() == 0)
            &&& (i == 0 ==> p.parent is None)
            &&& (i != 0 ==> p.parent is Some && {
                let pp = p.parent->0;
                &&& pp < self.procs@.len()
                &&& pp != i
                &&& self.procs@[pp as int] is Some
                &&& self.procs@[pp as int]->0.children@.contains(i as usize)
            })
            &&& (forall|j: int| 0 <= j < p.children@.len() ==> {
                let c = #[trigger] p.children@[j];
                &&& c < self.procs@.len()
                &&& self.procs@[c as int] is Some
                &&& self.procs@[c as int]->0.parent == Some(i as usize)
            })
            &&& (forall|j1: int, j2: int|
                0 <= j1 < j2 < p.children@.len()
                    ==> p.children@[j1] != p.children@[j2])
        }
    }

    /// The table invariant: the root (pid 0) exists, has no parent and has
    /// not exited, every slot is consistent, and the table is small enough
    /// that every pid fits an `isize` return value.
    pub open spec fn wf(self) -> bool {
        &&& 1 <= self.procs@.len() <= isize::MAX
        &&& self.procs@[0] is Some
        &&& !(self.procs@[0]->0.status is Zombie)
        &&& forall|i: int| 0 <= i < self.procs@.len() ==> #[trigger] self.slot_ok(i)
    }

    /// A table holding only the root process, as the external bootstrap
    /// step leaves it: running, no parent, empty address space.
    pub fn new() -> (r: ProcTable)
        ensures
            r.wf(),
            r.procs@.len() == 1,
            r.live(0),
            r.tcb(0).pid == 0,
            r.tcb(0).status is Running,
            r.tcb(0).parent is None,
            r.tcb(0).children@.len() == 0,
            r.tcb(0).info.priority.pass == 0,
            r.tcb(0).info.priority.round == 0,
            r.tcb(0).info.priority.priority == 16,
    {
        let root = TaskControlBlock {
            pid: 0,
            status: TaskStatus::Running,
            exit_code: 0,
            parent: None,
            children: Vec::new(),
            memory_set: MemorySet::new(),
            trap_cx: TrapContext { a0: 0, entry: 0 },
            info: Default::default(),
        };
        let mut procs: Vec<Option<TaskControlBlock>> = Vec::new();
        procs.push(Some(root));
        let r = ProcTable { procs };
        proof {
            assert forall|i: int| 0 <= i < r.procs@.len() implies #[trigger] r.slot_ok(i) by {
                assert(r.procs@[i]->0.children@.len() == 0);
            }
        }
        r
    }
}

/// Well-formedness survives linking one fresh child: the new slot is the
/// highest pid, its parent is `cur`, and `cur`'s children gained exactly
/// that pid at the end.
pub proof fn lemma_wf_after_new_child(k1: ProcTable, k2: ProcTable, cur: int, child: TaskControlBlock)
    requires
        k1.wf(),
        k1.live(cur),
        !(k1.tcb(cur).status is Zombie),
        k2.procs@.len() == k1.procs@.len() + 1,
        k2.procs@.len() <= isize::MAX,
        child.pid == k1.procs@.len(),
        child.parent == Some(cur as usize),
        child.children@.len() == 0,
        !(child.status is Zombie),
        child.info.wf(),
        k2.procs@[k1.procs@.len() as int] == Some(child),
        k2.procs@[cur] is Some,
        with_children(k1.tcb(cur), k2.tcb(cur), k1.tcb(cur).children@.push(child.pid)),
        forall|i: int| 0 <= i < k1.procs@.len() && i != cur
            ==> k2.procs@[i] == k1.procs@[i],
    ensures
        k2.wf(),
{
    let n = k1.procs@.len() as int;
    assert(k1.slot_ok(0));
    assert(k1.slot_ok(cur));
    assert forall|i: int| 0 <= i < k2.procs@.len() implies #[trigger] k2.slot_ok(i) by {
        if i == n {
            assert(k2.tcb(cur).children@.contains(child.pid));
        } else {
            assert(k1.slot_ok(i));
            if k2.procs@[i] is Some {
                let p1 = k1.tcb(i);
                let p2 = k2.tcb(i);
                assert(p2.children@ == p1.children@ || p2.children@ == p1.children@.push(child.pid));
                if i != 0 {
                    let pp = p1.parent->0 as int;
                    assert(k1.slot_ok(pp));
                    assert(k2.procs@[pp] is Some);
                    assert(k2.tcb(pp).children@.contains(i as usize));
                }
                assert forall|j: int| 0 <= j < p2.children@.len() implies {
                    let c = #[trigger] p2.children@[j];
                    &&& c < k2.procs@.len()
                    &&& k2.procs@[c as int] is Some
                    &&& k2.procs@[c as int]->0.parent == Some(i as usize)
                } by {
                    let c = p2.children@[j];
                    if i == cur && j == p2.children@.len() - 1 {
                        assert(c == child.pid);
                    } else {
                        assert(c == p1.children@[j]);
                        assert(k1.slot_ok(c as int));
                        assert(c as int != cur ==> k2.procs@[c as int] == k1.procs@[c as int]);
                    }
                }
            }
        }
    }
}

/// Well-formedness survives reaping the zombie child at position `idx` of
/// `cur`'s children: that pid's slot is freed and the list entry removed.
pub proof fn lemma_wf_after_reap(k1: ProcTable, k2: ProcTable, cur: int, idx: int)
    requires
        k1.wf(),
        k1.live(cur),
        0 <= idx < k1.tcb(cur).children@.len(),
        k1.tcb(k1.tcb(cur).children@[idx] as int).status is Zombie,
        k2.procs@.len() == k1.procs@.len(),
        k2.procs@[k1.tcb(cur).children@[idx] as int] is None,
        k2.procs@[cur] is Some,
        with_children(k1.tcb(cur), k2.tcb(cur), k1.tcb(cur).children@.remove(idx)),
        forall|i: int| 0 <= i < k1.procs@.len() && i != cur && i != k1.tcb(cur).children@[idx] as int
            ==> k2.procs@[i] == k1.procs@[i],
    ensures
        k2.wf(),
{
    let n = k1.procs@.len() as int;
    let c = k1.tcb(cur).children@[idx] as int;
    let ch1 = k1.tcb(cur).children@;
    let ch2 = ch1.remove(idx);
    assert(k1.slot_ok(cur));
    assert(k1.slot_ok(c));
    assert(k1.slot_ok(0));
    // the reaped child points back to cur, so it is not the root and not cur
    assert(c != 0 && c != cur);
    // a zombie has no children, so nobody's parent is the reaped pid
    assert(k1.tcb(c).children@.len() == 0);
    assert forall|i: int| 0 <= i < n && k1.procs@[i] is Some && i != c
        implies k1.tcb(i).parent != Some(c as usize) by {
        assert(k1.slot_ok(i));
        if i != 0 && k1.tcb(i).parent == Some(c as usize) {
            assert(k1.tcb(c).children@.contains(i as usize));
        }
    }
    // an element of the old children list other than position idx survives
    assert forall|x: usize| ch1.contains(x) && x != c as usize implies ch2.contains(x) by {
        let j = choose|j: int| 0 <= j < ch1.len() && ch1[j] == x;
        if j < idx {
            assert(ch2[j] == x);
        } else {
            assert(ch2[j - 1] == x);
        }
    }
    assert forall|i: int| 0 <= i < k2.procs@.len() implies #[trigger] k2.slot_ok(i) by {
        assert(k1.slot_ok(i));
        if k2.procs@[i] is Some {
            let p1 = k1.tcb(i);
            let p2 = k2.tcb(i);
            assert(k2.procs@[i] == k1.procs@[i] || i == cur);
            if i != 0 {
                let pp = p1.parent->0 as int;
                assert(k1.slot_ok(pp));
                assert(pp != c);
                assert(k2.procs@[pp] is Some);
                if pp == cur {
                    assert(ch1.contains(i as usize));
                    assert(i != c);
                    assert(k2.tcb(pp).children@.contains(i as usize));
                } else {
                    assert(k2.tcb(pp).children@.contains(i as usize));
                }
            }
            assert forall|j: int| 0 <= j < p2.children@.len() implies {
                let cc = #[trigger] p2.children@[j];
                &&& cc < k2.procs@.len()
                &&& k2.procs@[cc as int] is Some
                &&& k2.procs@[cc as int]->0.parent == Some(i as usize)
            } by {
                let cc = p2.children@[j];
                if i == cur {
                    assert(cc == if j < idx { ch1[j] } else { ch1[j + 1] });
                    assert(cc != c as usize) by {
                        if j >= idx {
                            assert(ch1[idx] != ch1[j + 1]);
                        }
                    }
                    assert(k1.slot_ok(cc as int));
                    assert(cc as int != cur);
                    assert(k2.procs@[cc as int] == k1.procs@[cc as int]);
                } else {
                    assert(k1.slot_ok(cc as int));
                    assert(cc as int != c);
                    assert(cc as int != cur ==> k2.procs@[cc as int] == k1.procs@[cc as int]);
                }
            }
            if i == cur {
                assert forall|j1: int, j2: int| 0 <= j1 < j2 < ch2.len()
                    implies ch2[j1] != ch2[j2] by {
                    let a1 = if j1 < idx { j1 } else { j1 + 1 };
                    let a2 = if j2 < idx { j2 } else { j2 + 1 };
                    assert(ch2[j1] == ch1[a1] && ch2[j2] == ch1[a2]);
                }
            }
        }
    }
}

/// Well-formedness survives an exit with reparenting: `cur` becomes a
/// zombie with no children, each of its former children now names the
/// root as parent, and the root's children list gained them at the end.
pub proof fn lemma_wf_after_exit(k1: ProcTable, k2: ProcTable, cur: int)
    requires
        k1.wf(),
        k1.live(cur),
        cur != 0,
        k2.procs@.len() == k1.procs@.len(),
        k2.procs@[cur] is Some,
        k2.tcb(cur).pid == k1.tcb(cur).pid,
        k2.tcb(cur).status is Zombie,
        k2.tcb(cur).parent == k1.tcb(cur).parent,
        k2.tcb(cur).children@.len() == 0,
        k2.tcb(cur).info == k1.tcb(cur).info,
        k2.procs@[0] is Some,
        with_children(
            k1.tcb(0),
            k2.tcb(0),
            k1.tcb(0).children@ + k1.tcb(cur).children@,
        ),
        forall|j: int| 0 <= j < k1.tcb(cur).children@.len()
            ==> k2.procs@[#[trigger] k1.tcb(cur).children@[j] as int]
                == Some(TaskControlBlock { parent: Some(0usize), ..k1.tcb(k1.tcb(cur).children@[j] as int) }),
        forall|i: int|
            0 <= i < k1.procs@.len() && i != cur && i != 0
                && !k1.tcb(cur).children@.contains(i as usize)
                ==> k2.procs@[i] == k1.procs@[i],
    ensures
        k2.wf(),
{
    let n = k1.procs@.len() as int;
    let kids = k1.tcb(cur).children@;
    assert(k1.slot_ok(cur));
    assert(k1.slot_ok(0));
    // kids never include the root or cur itself
    assert forall|j: int| 0 <= j < kids.len() implies kids[j] as int != 0 && kids[j] as int != cur by {
        assert(k1.slot_ok(kids[j] as int));
    }
    // whoever lists a kid as parent is cur, and vice versa
    assert forall|i: int| 0 <= i < n && k1.procs@[i] is Some && kids.contains(i as usize)
        implies k1.tcb(i).parent == Some(cur as usize) by {
        let j = choose|j: int| 0 <= j < kids.len() && kids[j] == i as usize;
        assert(k1.slot_ok(cur));
    }
    assert forall|i: int| 0 <= i < k2.procs@.len() implies #[trigger] k2.slot_ok(i) by {
        assert(k1.slot_ok(i));
        if k2.procs@[i] is Some {
            let p1 = k1.tcb(i);
            let p2 = k2.tcb(i);
            // relate the two slots
            if i != cur && i != 0 && !kids.contains(i as usize) {
                assert(k2.procs@[i] == k1.procs@[i]);
            }
            if kids.contains(i as usize) {
                let j = choose|j: int| 0 <= j < kids.len() && kids[j] == i as usize;
                assert(k2.procs@[i] == Some(TaskControlBlock { parent: Some(0usize), ..k1.tcb(i) }));
            }
            // parent clause
            if i != 0 {
                if kids.contains(i as usize) {
                    assert(p2.parent == Some(0usize));
                    assert(k2.tcb(0).children@ == k1.tcb(0).children@ + kids);
                    assert(kids.contains(i as usize));
                    assert(k2.tcb(0).children@.contains(i as usize));
                } else {
                    let pp = p1.parent->0 as int;
                    assert(k1.slot_ok(pp));
                    assert(p2.parent == p1.parent);
                    assert(k2.procs@[pp] is Some);
                    if pp == cur {
                        assert(kids.contains(i as usize));
                        assert(false);
                    } else if pp == 0 {
                        assert(k2.tcb(0).children@.contains(i as usize));
                    } else if kids.contains(pp as usize) {
                        assert(k2.tcb(pp).children@ == k1.tcb(pp).children@);
                        assert(k2.tcb(pp).children@.contains(i as usize));
                    } else {
                        assert(k2.procs@[pp] == k1.procs@[pp]);
                        assert(k2.tcb(pp).children@.contains(i as usize));
                    }
                }
            }
            // children clause
            assert forall|j: int| 0 <= j < p2.children@.len() implies {
                let cc = #[trigger] p2.children@[j];
                &&& cc < k2.procs@.len()
                &&& k2.procs@[cc as int] is Some
                &&& k2.procs@[cc as int]->0.parent == Some(i as usize)
            } by {
                let cc = p2.children@[j];
                if i == 0 {
                    let old_root = k1.tcb(0).children@;
                    if j < old_root.len() {
                        assert(cc == old_root[j]);
                        assert(k1.slot_ok(cc as int));
                        assert(k1.tcb(cc as int).parent == Some(0usize));
                        if kids.contains(cc) {
                            assert(k1.tcb(cc as int).parent == Some(cur as usize));
                            assert(false);
                        }
                        if cc as int == cur {
                            assert(k2.tcb(cur).parent == k1.tcb(cur).parent);
                        } else {
                            assert(k2.procs@[cc as int] == k1.procs@[cc as int]);
                        }
                    } else {
                        assert(cc == kids[j - old_root.len()]);
                        assert(kids.contains(cc));
                        assert(k2.procs@[cc as int]
                            == Some(TaskControlBlock { parent: Some(0usize), ..k1.tcb(cc as int) }));
                    }
                } else {
                    // children lists other than the root's are as in k1
                    assert(p2.children@ == p1.children@);
                    assert(k1.slot_ok(cc as int));
                    assert(k1.tcb(cc as int).parent == Some(i as usize));
                    if kids.contains(cc) {
                        assert(i == cur);
                        assert(false);
                    }
                    if cc as int == cur {
                        assert(k2.tcb(cur).parent == k1.tcb(cur).parent);
                    } else if cc as int == 0 {
                        assert(k1.tcb(0).parent is None);
                        assert(false);
                    } else {
                        assert(k2.procs@[cc as int] == k1.procs@[cc as int]);
                    }
                }
            }
            // distinctness
            if i == 0 {
                let old_root = k1.tcb(0).children@;
                assert forall|j1: int, j2: int| 0 <= j1 < j2 < p2.children@.len()
                    implies p2.children@[j1] != p2.children@[j2] by {
                    if j1 < old_root.len() && j2 >= old_root.len() {
                        let x = old_root[j1];
                        if x == kids[j2 - old_root.len()] {
                            assert(kids.contains(x));
                            assert(k1.tcb(x as int).parent == Some(cur as usize));
                            assert(k1.slot_ok(0));
                            assert(k1.tcb(x as int).parent == Some(0usize));
                        }
                    }
                }
            }
        }
    }
}

/// Well-formedness survives a change local to one live process that keeps
/// its identity, links and children untouched and does not turn it into a
/// zombie (or leaves a zombie as it was).
pub proof fn lemma_wf_after_local_update(k1: ProcTable, k2: ProcTable, cur: int)
    requires
        k1.wf(),
        k1.live(cur),
        k2.procs@.len() == k1.procs@.len(),
        k2.procs@[cur] is Some,
        k2.tcb(cur).pid == k1.tcb(cur).pid,
        k2.tcb(cur).parent == k1.tcb(cur).parent,
        k2.tcb(cur).children@ == k1.tcb(cur).children@,
        k2.tcb(cur).status is Zombie ==> k1.tcb(cur).status is Zombie,
        k2.tcb(cur).info.wf(),
        forall|i: int| 0 <= i < k1.procs@.len() && i != cur
            ==> k2.procs@[i] == k1.procs@[i],
    ensures
        k2.wf(),
{
    assert(k1.slot_ok(cur));
    assert(k1.slot_ok(0));
    assert forall|i: int| 0 <= i < k2.procs@.len() implies #[trigger] k2.slot_ok(i) by {
        assert(k1.slot_ok(i));
        if k2.procs@[i] is Some {
            let p1 = k1.tcb(i);
            let p2 = k2.tcb(i);
            assert(p2.children@ == p1.children@);
            if i != 0 {
                let pp = p1.parent->0 as int;
                assert(k1.slot_ok(pp));
                assert(k2.procs@[pp] is Some);
                assert(k2.tcb(pp).children@.contains(i as usize));
            }
            assert forall|j: int| 0 <= j < p2.children@.len() implies {
                let cc = #[trigger] p2.children@[j];
                &&& cc < k2.procs@.len()
                &&& k2.procs@[cc as int] is Some
                &&& k2.procs@[cc as int]->0.parent == Some(i as usize)
            } by {
                let cc = p2.children@[j];
                assert(k1.slot_ok(cc as int));
            }
        }
    }
}

/// Copy a list of pids.
pub fn clone_usize_vec(v: &Vec<usize>) -> (r: Vec<usize>)
    ensures
        r@ == v@,
{
    let mut r: Vec<usize> = Vec::new();
    let mut i: usize = 0;
    while i < v.len()
        invariant
            i <= v.len(),
            r@ == v@.subrange(0, i as int),
        decreases v.len() - i,
    {
        let x = v[i];
        r.push(x);
        proof {
            assert(v@.subrange(0, i + 1) =~= v@.subrange(0, i as int).push(v@[i as int]));
        }
        i = i + 1;
    }
    proof {
        assert(v@.subrange(0, v@.len() as int) =~= v@);
    }
    r
}

/// Copy a syscall-counter table.
pub fn clone_u32_vec(v: &Vec<u32>) -> (r: Vec<u32>)
    ensures
        r@ == v@,
{
    let mut r: Vec<u32> = Vec::new();
    let mut i: usize = 0;
    while i < v.len()
        invariant
            i <= v.len(),
            r@ == v@.subrange(0, i as int),
        decreases v.len() - i,
    {
        let x = v[i];
        r.push(x);
        proof {
            assert(v@.subrange(0, i + 1) =~= v@.subrange(0, i as int).push(v@[i as int]));
        }
        i = i + 1;
    }
    proof {
        assert(v@.subrange(0, v@.len() as int) =~= v@);
    }
    r
}

} // verus!
