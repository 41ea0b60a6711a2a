//! Process management syscalls.
//!
//! Each handler acts for the calling process `cur` on the explicit kernel
//! state: the process table and, where a process is enqueued, the ready
//! queue. User pointers of the syscall ABI arrive here already
//! translated by the caller's address space (an external collaborator) as
//! `&mut` out-parameters, and clock readings arrive as `now_us` arguments
//! from the external timer; every other effect is decided, and specified,
//! here.

use vstd::prelude::*;
use crate::info::{Info, Priority};
use crate::loader::Loader;
use crate::manager::{ReadyTask, TaskManager};
use crate::mm::{
    change_port_to_permission, spec_aligned, valid_port, MemorySet,
};
use crate::task::{
    clone_u32_vec, clone_usize_vec, lemma_wf_after_exit, lemma_wf_after_local_update,
    lemma_wf_after_new_child, lemma_wf_after_reap, with_children, ProcTable, TaskControlBlock,
    TaskStatus, TrapContext,
};

verus! {

/// A wall-clock reading written back by `sys_get_time`.
#[derive(Clone, Copy, Debug, PartialEq, Eq, Structural)]
pub struct TimeVal {
    pub sec: usize,
    pub usec: usize,
}

/// The caller-visible accounting snapshot written back by `sys_task_info`.
#[derive(Debug)]
pub struct TaskInfo {
    pub status: TaskStatus,
    pub syscall_times: Vec<u32>,
    pub time: usize,
}

/// The pid of the calling process: a pure read.
pub fn sys_getpid(k: &ProcTable, cur: usize) -> (r: isize)
    requires
        k.wf(),
        k.live(cur as int),
    ensures
        r == cur,
{
    let slot = &k.procs[cur];
    let p = slot.as_ref().unwrap();
    proof {
        assert(k.slot_ok(cur as int));
    }
    p.getpid() as isize
}

/// The caller cooperatively gives the CPU up: it re-enters Ready and is
/// re-enqueued under its current scheduling key.
pub fn sys_yield(k: &mut ProcTable, manager: &mut TaskManager, cur: usize) -> (r: isize)
    requires
        old(k).wf(),
        old(k).live(cur as int),
        old(k).tcb(cur as int).status is Running,
    ensures
        r == 0,
        final(k).wf(),
        final(k).procs@.len() == old(k).procs@.len(),
        final(k).procs@[cur as int]
            == Some(TaskControlBlock { status: TaskStatus::Ready, ..old(k).tcb(cur as int) }),
        forall|i: int| 0 <= i < old(k).procs@.len() && i != cur
            ==> final(k).procs@[i] == old(k).procs@[i],
        ({
            let entry = (ReadyTask { pid: cur, key: old(k).tcb(cur as int).info.priority });
            if entry.key.pass == 0 {
                final(manager).task_queue@ == seq![entry] + old(manager).task_queue@
            } else {
                final(manager).task_queue@ == old(manager).task_queue@.push(entry)
            }
        }),
{
    let key = match &k.procs[cur] {
        Some(p) => p.info.priority,
        None => Default::default(),
    };
    match &mut k.procs[cur] {
        Some(p) => {
            p.status = TaskStatus::Ready;
        },
        None => {},
    }
    proof {
        assert(old(k).slot_ok(cur as int));
        lemma_wf_after_local_update(*old(k), *k, cur as int);
    }
    manager.add(ReadyTask { pid: cur, key });
    0
}

/// Replace the caller's scheduling weight: rejected with `-1` below 2,
/// echoed back and persisted otherwise. The accumulated `(round, pass)`
/// history is kept either way.
pub fn sys_set_priority(k: &mut ProcTable, cur: usize, prio: isize) -> (r: isize)
    requires
        old(k).wf(),
        old(k).live(cur as int),
    ensures
        final(k).wf(),
        prio < 2 ==> r == -1 && final(k).procs@ == old(k).procs@,
        prio >= 2 ==> {
            &&& r == prio
            &&& final(k).procs@.len() == old(k).procs@.len()
            &&& final(k).procs@[cur as int] matches Some(p2)
            &&& final(k).tcb(cur as int).info.priority.priority == prio
            &&& final(k).tcb(cur as int).info.priority.pass
                == old(k).tcb(cur as int).info.priority.pass
            &&& final(k).tcb(cur as int).info.priority.round
                == old(k).tcb(cur as int).info.priority.round
            &&& final(k).tcb(cur as int).info.syscall_times
                == old(k).tcb(cur as int).info.syscall_times
            &&& final(k).tcb(cur as int).info.start_time
                == old(k).tcb(cur as int).info.start_time
            &&& final(k).tcb(cur as int).pid == old(k).tcb(cur as int).pid
            &&& final(k).tcb(cur as int).status == old(k).tcb(cur as int).status
            &&& final(k).tcb(cur as int).exit_code == old(k).tcb(cur as int).exit_code
            &&& final(k).tcb(cur as int).parent == old(k).tcb(cur as int).parent
            &&& final(k).tcb(cur as int).children == old(k).tcb(cur as int).children
            &&& final(k).tcb(cur as int).memory_set == old(k).tcb(cur as int).memory_set
            &&& final(k).tcb(cur as int).trap_cx == old(k).tcb(cur as int).trap_cx
            &&& forall|i: int| 0 <= i < old(k).procs@.len() && i != cur
                ==> final(k).procs@[i] == old(k).procs@[i]
        },
{
    if prio < 2 {
        return -1;
    }
    match &mut k.procs[cur] {
        Some(p) => {
            p.info.set_priority(prio as usize);
        },
        None => {},
    }
    proof {
        assert(old(k).slot_ok(cur as int));
        lemma_wf_after_local_update(*old(k), *k, cur as int);
        assert(final(k).procs@ =~= old(k).procs@.update(
            cur as int,
            final(k).procs@[cur as int],
        ));
    }
    prio
}

/// Write the external timer's reading through the caller's translated
/// `TimeVal` buffer, split into seconds and microseconds.
pub fn sys_get_time(ts: &mut TimeVal, _tz: usize, now_us: usize) -> (r: isize)
    ensures
        r == 0,
        final(ts).sec == now_us as int / 1_000_000,
        final(ts).usec == now_us as int % 1_000_000,
{
    ts.sec = now_us / 1_000_000;
    ts.usec = now_us % 1_000_000;
    0
}

/// Write the caller's status, syscall counters and elapsed milliseconds
/// since its image started through the caller's translated buffer.
pub fn sys_task_info(k: &ProcTable, cur: usize, ti: &mut TaskInfo, now_us: usize) -> (r: isize)
    requires
        k.wf(),
        k.live(cur as int),
        k.tcb(cur as int).info.start_time <= now_us as int / 1000,
    ensures
        r == 0,
        final(ti).status == k.tcb(cur as int).status,
        final(ti).syscall_times@ == k.tcb(cur as int).info.syscall_times@,
        final(ti).time == now_us as int / 1000 - k.tcb(cur as int).info.start_time,
{
    let slot = &k.procs[cur];
    let p = slot.as_ref().unwrap();
    ti.status = p.status;
    ti.syscall_times = clone_u32_vec(&p.info.syscall_times);
    ti.time = p.info.during_time(now_us);
    0
}

/// Map fresh frames over `[start, start + len)` in the caller's address
/// space. Fails with `-1`, leaving every address space untouched, when the
/// port bits are malformed, `start` is not page-aligned, or any page of
/// the range is already mapped; returns `0` after mapping the whole range
/// otherwise.
pub fn sys_mmap(k: &mut ProcTable, cur: usize, start: usize, len: usize, port: usize) -> (r: isize)
    requires
        old(k).wf(),
        old(k).live(cur as int),
        start + len <= usize::MAX,
    ensures
        final(k).wf(),
        r == 0 || r == -1,
        r == 0 <==> valid_port(port) && spec_aligned(start)
            && old(k).tcb(cur as int).memory_set.range_free(start, (start + len) as usize),
        r == -1 ==> final(k).procs@ == old(k).procs@,
        r == 0 ==> {
            &&& final(k).procs@.len() == old(k).procs@.len()
            &&& final(k).procs@[cur as int] is Some
            &&& (forall|v: usize|
                final(k).tcb(cur as int).memory_set.is_mapped(v)
                    == (old(k).tcb(cur as int).memory_set.is_mapped(v)
                        || (crate::mm::range_start_vpn(start) <= v as int
                            && (v as int) < crate::mm::range_end_vpn((start + len) as usize))))
            &&& final(k).tcb(cur as int)
                == (TaskControlBlock {
                    memory_set: final(k).tcb(cur as int).memory_set,
                    ..old(k).tcb(cur as int)
                })
            &&& forall|i: int| 0 <= i < old(k).procs@.len() && i != cur
                ==> final(k).procs@[i] == old(k).procs@[i]
        },
{
    let perm = change_port_to_permission(port);
    let perm = match perm {
        None => {
            return -1;
        },
        Some(p) => p,
    };
    if start % crate::mm::PAGE_SIZE != 0 {
        return -1;
    }
    let end: usize = start + len;
    let res = match &mut k.procs[cur] {
        Some(p) => p.memory_set.insert_framed_area_check(start, end, perm),
        None => None,
    };
    proof {
        assert(old(k).slot_ok(cur as int));
        lemma_wf_after_local_update(*old(k), *k, cur as int);
        assert(final(k).procs@ =~= old(k).procs@.update(
            cur as int,
            final(k).procs@[cur as int],
        ));
        if res is None {
            assert(final(k).procs@[cur as int] == old(k).procs@[cur as int]);
            assert(final(k).procs@ =~= old(k).procs@);
        }
    }
    match res {
        Some(()) => 0,
        None => -1,
    }
}

/// Unmap `[start, start + len)` from the caller's address space. Fails
/// with `-1`, leaving every mapping in place, when `start` is misaligned
/// or any page of the range is not currently mapped by this mechanism;
/// returns `0` after releasing the whole range otherwise.
pub fn sys_munmap(k: &mut ProcTable, cur: usize, start: usize, len: usize) -> (r: isize)
    requires
        old(k).wf(),
        old(k).live(cur as int),
        start + len <= usize::MAX,
    ensures
        final(k).wf(),
        r == 0 || r == -1,
        r == 0 <==> spec_aligned(start)
            && old(k).tcb(cur as int).memory_set.range_mapped(start, (start + len) as usize),
        r == -1 ==> final(k).procs@ == old(k).procs@,
        r == 0 ==> {
            &&& final(k).procs@.len() == old(k).procs@.len()
            &&& final(k).procs@[cur as int] is Some
            &&& (forall|v: usize|
                final(k).tcb(cur as int).memory_set.is_mapped(v)
                    == (old(k).tcb(cur as int).memory_set.is_mapped(v)
                        && !(crate::mm::range_start_vpn(start) <= v as int
                            && (v as int) < crate::mm::range_end_vpn((start + len) as usize))))
            &&& final(k).tcb(cur as int)
                == (TaskControlBlock {
                    memory_set: final(k).tcb(cur as int).memory_set,
                    ..old(k).tcb(cur as int)
                })
            &&& forall|i: int| 0 <= i < old(k).procs@.len() && i != cur
                ==> final(k).procs@[i] == old(k).procs@[i]
        },
{
    if start % crate::mm::PAGE_SIZE != 0 {
        return -1;
    }
    let end: usize = start + len;
    let res = match &mut k.procs[cur] {
        Some(p) => p.memory_set.move_frame_area_check(start, end),
        None => None,
    };
    proof {
        assert(old(k).slot_ok(cur as int));
        lemma_wf_after_local_update(*old(k), *k, cur as int);
        assert(final(k).procs@ =~= old(k).procs@.update(
            cur as int,
            final(k).procs@[cur as int],
        ));
        if res is None {
            assert(final(k).procs@[cur as int] == old(k).procs@[cur as int]);
            assert(final(k).procs@ =~= old(k).procs@);
        }
    }
    match res {
        Some(()) => 0,
        None => -1,
    }
}

/// Replace the caller's program image in place: the address space and trap
/// context are discarded and rebuilt for the named image and the start
/// time is stamped afresh; pid, parent and children are untouched. Fails
/// with `-1`, changing nothing, when the loader does not know the name.
pub fn sys_exec(
    k: &mut ProcTable,
    app_loader: &Loader,
    cur: usize,
    path: &String,
    now_us: usize,
) -> (r: isize)
    requires
        old(k).wf(),
        old(k).live(cur as int),
    ensures
        final(k).wf(),
        r == 0 || r == -1,
        r == 0 <==> app_loader.resolves(path@),
        r == -1 ==> final(k).procs@ == old(k).procs@,
        r == 0 ==> {
            &&& final(k).procs@.len() == old(k).procs@.len()
            &&& final(k).procs@[cur as int] is Some
            &&& (exists|img: int| {
                &&& 0 <= img < app_loader.apps@.len()
                &&& #[trigger] app_loader.apps@[img]@ == path@
                &&& (forall|j: int| 0 <= j < img ==> #[trigger] app_loader.apps@[j]@ != path@)
                &&& final(k).tcb(cur as int).trap_cx == (TrapContext { a0: 0, entry: img as usize })
            })
            &&& final(k).tcb(cur as int).memory_set.pages@.len() == 0
            &&& final(k).tcb(cur as int).info.start_time == now_us as int / 1000
            &&& final(k).tcb(cur as int).info.syscall_times
                == old(k).tcb(cur as int).info.syscall_times
            &&& final(k).tcb(cur as int).info.priority == old(k).tcb(cur as int).info.priority
            &&& final(k).tcb(cur as int).pid == old(k).tcb(cur as int).pid
            &&& final(k).tcb(cur as int).status == old(k).tcb(cur as int).status
            &&& final(k).tcb(cur as int).parent == old(k).tcb(cur as int).parent
            &&& final(k).tcb(cur as int).children == old(k).tcb(cur as int).children
            &&& forall|i: int| 0 <= i < old(k).procs@.len() && i != cur
                ==> final(k).procs@[i] == old(k).procs@[i]
        },
{
    let resolved = app_loader.get_app_data_by_name(path);
    match resolved {
        None => -1,
        Some(img) => {
            match &mut k.procs[cur] {
                Some(p) => {
                    p.exec(img);
                    p.record_start(now_us);
                },
                None => {},
            }
            proof {
                assert(old(k).slot_ok(cur as int));
                lemma_wf_after_local_update(*old(k), *k, cur as int);
            }
            0
        },
    }
}

/// The filter of `waitpid`: `-1` matches any child, a non-negative pid
/// matches exactly that child, any other value matches nothing.
pub open spec fn filter_matches(pid: isize, child_pid: usize) -> bool {
    pid == -1 || (pid >= 0 && child_pid == pid as usize)
}

/// The child at position `j` of `cur`'s children matches the filter.
pub open spec fn waitpid_match_at(k: ProcTable, cur: int, pid: isize, j: int) -> bool {
    filter_matches(pid, k.tcb(cur).children@[j])
}

/// The child at position `j` matches the filter and is a zombie, so it
/// could be reaped.
pub open spec fn waitpid_reapable_at(k: ProcTable, cur: int, pid: isize, j: int) -> bool {
    waitpid_match_at(k, cur, pid, j)
        && k.tcb(k.tcb(cur).children@[j] as int).status is Zombie
}

/// Some child of `cur` matches the filter.
pub open spec fn waitpid_has_match(k: ProcTable, cur: int, pid: isize) -> bool {
    exists|j: int|
        0 <= j < k.tcb(cur).children@.len() && #[trigger] waitpid_match_at(k, cur, pid, j)
}

/// Some child of `cur` matches the filter and is a zombie.
pub open spec fn waitpid_has_reapable(k: ProcTable, cur: int, pid: isize) -> bool {
    exists|j: int|
        0 <= j < k.tcb(cur).children@.len() && #[trigger] waitpid_reapable_at(k, cur, pid, j)
}

/// Duplicate the caller: the child gets the next pid, a copy of the
/// caller's address space, counters and weight, a fresh `(0, 0)`
/// scheduling key, and a trap context whose syscall-return register reads
/// 0, so the child path of `fork` observes 0 while the caller is handed
/// the child's pid. The child is linked as the caller's last child and
/// enqueued Ready at the queue front (its `pass` is 0).
pub fn sys_fork(k: &mut ProcTable, manager: &mut TaskManager, cur: usize) -> (r: isize)
    requires
        old(k).wf(),
        old(k).live(cur as int),
        old(k).tcb(cur as int).status is Running,
        old(k).procs@.len() + 1 <= isize::MAX,
    ensures
        final(k).wf(),
        r == old(k).procs@.len(),
        r != cur,
        final(k).procs@.len() == old(k).procs@.len() + 1,
        final(k).live(r as int),
        ({
            let c = final(k).tcb(r as int);
            &&& c.pid == r
            &&& c.status is Ready
            &&& c.exit_code == 0
            &&& c.parent == Some(cur)
            &&& c.children@.len() == 0
            &&& c.memory_set.pages@ == old(k).tcb(cur as int).memory_set.pages@
            &&& c.trap_cx.a0 == 0
            &&& c.trap_cx.entry == old(k).tcb(cur as int).trap_cx.entry
            &&& c.info.syscall_times@ == old(k).tcb(cur as int).info.syscall_times@
            &&& c.info.start_time == old(k).tcb(cur as int).info.start_time
            &&& c.info.priority.pass == 0
            &&& c.info.priority.round == 0
            &&& c.info.priority.priority == old(k).tcb(cur as int).info.priority.priority
        }),
        with_children(
            old(k).tcb(cur as int),
            final(k).tcb(cur as int),
            old(k).tcb(cur as int).children@.push(r as usize),
        ),
        final(k).procs@[cur as int] is Some,
        forall|i: int| 0 <= i < old(k).procs@.len() && i != cur
            ==> final(k).procs@[i] == old(k).procs@[i],
        final(manager).task_queue@
            == seq![(ReadyTask { pid: r as usize, key: final(k).tcb(r as int).info.priority })]
                + old(manager).task_queue@,
{
    let n = k.procs.len();
    let (pages, counters, start_time, weight, entry) = {
        let slot = &k.procs[cur];
        let p = slot.as_ref().unwrap();
        (
            clone_usize_vec(&p.memory_set.pages),
            clone_u32_vec(&p.info.syscall_times),
            p.info.start_time,
            p.info.priority.priority,
            p.trap_cx.entry,
        )
    };
    proof {
        assert(old(k).slot_ok(cur as int));
    }
    let child = TaskControlBlock {
        pid: n,
        status: TaskStatus::Ready,
        exit_code: 0,
        parent: Some(cur),
        children: Vec::new(),
        memory_set: MemorySet { pages },
        trap_cx: TrapContext { a0: 0, entry },
        info: Info {
            syscall_times: counters,
            start_time,
            priority: Priority { pass: 0, priority: weight, round: 0 },
        },
    };
    let key = child.info.priority;
    let ghost gchild = child;
    k.procs.push(Some(child));
    match &mut k.procs[cur] {
        Some(p) => {
            p.children.push(n);
        },
        None => {},
    }
    proof {
        lemma_wf_after_new_child(*old(k), *k, cur as int, gchild);
    }
    manager.add(ReadyTask { pid: n, key });
    n as isize
}

/// Build a fresh process from the named program image (no copy of the
/// caller's address space), link it as the caller's last child, and
/// enqueue it Ready. Returns the new pid, or `-1`, changing nothing, when
/// the loader does not know the name.
pub fn sys_spawn(
    k: &mut ProcTable,
    manager: &mut TaskManager,
    app_loader: &Loader,
    cur: usize,
    path: &String,
    now_us: usize,
) -> (r: isize)
    requires
        old(k).wf(),
        old(k).live(cur as int),
        old(k).tcb(cur as int).status is Running,
        old(k).procs@.len() + 1 <= isize::MAX,
    ensures
        final(k).wf(),
        r == -1 <==> !app_loader.resolves(path@),
        r == -1 ==> final(k).procs@ == old(k).procs@
            && final(manager).task_queue@ == old(manager).task_queue@,
        r != -1 ==> {
            &&& r == old(k).procs@.len()
            &&& r != cur
            &&& final(k).procs@.len() == old(k).procs@.len() + 1
            &&& final(k).live(r as int)
            &&& ({
                let c = final(k).tcb(r as int);
                &&& c.pid == r
                &&& c.status is Ready
                &&& c.parent == Some(cur)
                &&& c.children@.len() == 0
                &&& c.memory_set.pages@.len() == 0
                &&& c.trap_cx.a0 == 0
                &&& (exists|img: int| {
                    &&& 0 <= img < app_loader.apps@.len()
                    &&& #[trigger] app_loader.apps@[img]@ == path@
                    &&& (forall|j: int| 0 <= j < img
                        ==> #[trigger] app_loader.apps@[j]@ != path@)
                    &&& c.trap_cx.entry == img
                })
                &&& c.info.start_time == now_us as int / 1000
                &&& c.info.priority.pass == 0
                &&& c.info.priority.round == 0
                &&& c.info.priority.priority == 16
            })
            &&& with_children(
                old(k).tcb(cur as int),
                final(k).tcb(cur as int),
                old(k).tcb(cur as int).children@.push(r as usize),
            )
            &&& final(k).procs@[cur as int] is Some
            &&& (forall|i: int| 0 <= i < old(k).procs@.len() && i != cur
                ==> final(k).procs@[i] == old(k).procs@[i])
            &&& final(manager).task_queue@
                == seq![(ReadyTask { pid: r as usize, key: final(k).tcb(r as int).info.priority })]
                    + old(manager).task_queue@
        },
{
    let resolved = app_loader.get_app_data_by_name(path);
    let img = match resolved {
        None => {
            return -1;
        },
        Some(img) => img,
    };
    let n = k.procs.len();
    let mut info: Info = Default::default();
    info.record_start_time(now_us);
    let child = TaskControlBlock {
        pid: n,
        status: TaskStatus::Ready,
        exit_code: 0,
        parent: Some(cur),
        children: Vec::new(),
        memory_set: MemorySet::new(),
        trap_cx: TrapContext { a0: 0, entry: img },
        info,
    };
    let key = child.info.priority;
    let ghost gchild = child;
    proof {
        assert(old(k).slot_ok(cur as int));
    }
    k.procs.push(Some(child));
    match &mut k.procs[cur] {
        Some(p) => {
            p.children.push(n);
        },
        None => {},
    }
    proof {
        lemma_wf_after_new_child(*old(k), *k, cur as int, gchild);
    }
    manager.add(ReadyTask { pid: n, key });
    n as isize
}

/// Terminate the caller: it becomes a Zombie holding `exit_code`, is never
/// scheduled again, and each of its children is handed to the root process
/// (appended to the root's children, parent re-pointed), so no live
/// process's parent reference ever dangles. The caller's record stays in
/// the table until its own parent reaps it. Control never returns to the
/// caller: the external run loop dispatches the next Ready process.
pub fn sys_exit(k: &mut ProcTable, cur: usize, exit_code: i32)
    requires
        old(k).wf(),
        old(k).live(cur as int),
        old(k).tcb(cur as int).status is Running,
        cur != 0,
    ensures
        final(k).wf(),
        final(k).procs@.len() == old(k).procs@.len(),
        final(k).procs@[cur as int] is Some,
        final(k).tcb(cur as int).pid == cur,
        final(k).tcb(cur as int).status is Zombie,
        final(k).tcb(cur as int).exit_code == exit_code,
        final(k).tcb(cur as int).parent == old(k).tcb(cur as int).parent,
        final(k).tcb(cur as int).children@.len() == 0,
        final(k).tcb(cur as int).info == old(k).tcb(cur as int).info,
        final(k).tcb(cur as int).memory_set == old(k).tcb(cur as int).memory_set,
        forall|j: int| 0 <= j < old(k).tcb(cur as int).children@.len()
            ==> final(k).procs@[#[trigger] old(k).tcb(cur as int).children@[j] as int]
                == Some(TaskControlBlock {
                    parent: Some(0usize),
                    ..old(k).tcb(old(k).tcb(cur as int).children@[j] as int)
                }),
        final(k).procs@[0] is Some,
        with_children(
            old(k).tcb(0),
            final(k).tcb(0),
            old(k).tcb(0).children@ + old(k).tcb(cur as int).children@,
        ),
        forall|i: int|
            0 <= i < old(k).procs@.len() && i != cur && i != 0
                && !old(k).tcb(cur as int).children@.contains(i as usize)
                ==> final(k).procs@[i] == old(k).procs@[i],
{
    let mut kids: Vec<usize> = Vec::new();
    match &mut k.procs[cur] {
        Some(p) => {
            kids = clone_usize_vec(&p.children);
            p.children = Vec::new();
            p.status = TaskStatus::Zombie;
            p.exit_code = exit_code;
        },
        None => {},
    }
    let ghost k_mid = k.procs@;
    let ghost gkids = kids@;
    proof {
        assert(old(k).slot_ok(cur as int));
        assert(old(k).slot_ok(0));
        assert forall|j: int| 0 <= j < gkids.len() implies {
            let c = #[trigger] gkids[j] as int;
            &&& 0 < c < k_mid.len()
            &&& c != cur
            &&& k_mid[c] is Some
            &&& k_mid[c] == old(k).procs@[c]
        } by {
            let c = gkids[j] as int;
            assert(old(k).procs@[c] is Some);
            assert(old(k).slot_ok(c));
            assert(old(k).tcb(c).parent == Some(cur));
            if c == 0 {
                assert(old(k).tcb(0).parent is None);
            }
        }
    }
    let mut i: usize = 0;
    while i < kids.len()
        invariant
            old(k).wf(),
            old(k).slot_ok(cur as int),
            gkids == kids@,
            gkids == old(k).tcb(cur as int).children@,
            i <= gkids.len(),
            k.procs@.len() == k_mid.len(),
            k_mid.len() == old(k).procs@.len(),
            forall|j: int| 0 <= j < gkids.len() ==> {
                let c = #[trigger] gkids[j] as int;
                &&& 0 < c < k_mid.len()
                &&& c != cur
                &&& k_mid[c] is Some
                &&& k_mid[c] == old(k).procs@[c]
            },
            forall|j1: int, j2: int| 0 <= j1 < j2 < gkids.len() ==> gkids[j1] != gkids[j2],
            forall|j: int| 0 <= j < i
                ==> k.procs@[#[trigger] gkids[j] as int]
                    == Some(TaskControlBlock {
                        parent: Some(0usize),
                        ..old(k).tcb(gkids[j] as int)
                    }),
            forall|t: int|
                0 <= t < k_mid.len() && !gkids.subrange(0, i as int).contains(t as usize)
                    ==> k.procs@[t] == k_mid[t],
        decreases kids.len() - i,
    {
        let c = kids[i];
        proof {
            assert(gkids[i as int] as int == c);
            assert forall|j: int| 0 <= j < i implies gkids[j] != gkids[i as int] by {}
            assert(!gkids.subrange(0, i as int).contains(c));
            assert(k.procs@[c as int] == k_mid[c as int]);
        }
        match &mut k.procs[c] {
            Some(q) => {
                q.parent = Some(0);
            },
            None => {},
        }
        proof {
            assert(k.procs@[c as int]
                == Some(TaskControlBlock { parent: Some(0usize), ..old(k).tcb(c as int) }));
            assert(gkids.subrange(0, i + 1)
                =~= gkids.subrange(0, i as int).push(gkids[i as int]));
            assert forall|t: int|
                0 <= t < k_mid.len() && !gkids.subrange(0, i + 1).contains(t as usize)
                    implies k.procs@[t] == k_mid[t] by {
                assert(!gkids.subrange(0, i as int).contains(t as usize));
                assert(gkids.subrange(0, i + 1)[i as int] == c);
                assert(gkids.subrange(0, i + 1).contains(c));
                assert(t != c as int);
            }
        }
        i = i + 1;
    }
    proof {
        assert(!gkids.contains(0usize)) by {
            if gkids.contains(0usize) {
                let j = choose|j: int| 0 <= j < gkids.len() && gkids[j] == 0usize;
                assert(gkids[j] as int != 0);
            }
        }
        assert(!gkids.subrange(0, gkids.len() as int).contains(0usize)) by {
            assert(gkids.subrange(0, gkids.len() as int) =~= gkids);
        }
        assert(k.procs@[0] == k_mid[0]);
        assert(k_mid[0] == old(k).procs@[0]);
    }
    match &mut k.procs[0] {
        Some(root) => {
            root.children.append(&mut kids);
        },
        None => {},
    }
    proof {
        assert(!gkids.contains(cur)) by {
            if gkids.contains(cur) {
                let j = choose|j: int| 0 <= j < gkids.len() && gkids[j] == cur;
                assert(gkids[j] as int != cur);
            }
        }
        assert(!gkids.subrange(0, gkids.len() as int).contains(cur)) by {
            assert(gkids.subrange(0, gkids.len() as int) =~= gkids);
        }
        assert(k.procs@[cur as int] == k_mid[cur as int]);
        assert forall|i2: int|
            0 <= i2 < old(k).procs@.len() && i2 != cur && i2 != 0
                && !old(k).tcb(cur as int).children@.contains(i2 as usize)
                implies k.procs@[i2] == old(k).procs@[i2] by {
            assert(!gkids.subrange(0, gkids.len() as int).contains(i2 as usize)) by {
                assert(gkids.subrange(0, gkids.len() as int) =~= gkids);
            }
            assert(k_mid[i2] == old(k).procs@[i2]);
        }
        lemma_wf_after_exit(*old(k), *k, cur as int);
    }
}

/// Reap one zombie child. `pid == -1` matches any child, a non-negative
/// `pid` exactly one. Returns `-1`, changing nothing, when no child at all
/// matches; `-2`, changing nothing, when a child matches but none of the
/// matching ones has exited yet; otherwise removes exactly the first
/// matching zombie child from the table and from the caller's children,
/// writes its exit code through the caller's translated buffer, and
/// returns its pid.
pub fn sys_waitpid(k: &mut ProcTable, cur: usize, pid: isize, exit_code_ptr: &mut i32) -> (r: isize)
    requires
        old(k).wf(),
        old(k).live(cur as int),
    ensures
        final(k).wf(),
        r == -1 <==> !waitpid_has_match(*old(k), cur as int, pid),
        r == -2 <==> waitpid_has_match(*old(k), cur as int, pid)
            && !waitpid_has_reapable(*old(k), cur as int, pid),
        r >= 0 <==> waitpid_has_reapable(*old(k), cur as int, pid),
        r == -1 || r == -2 ==> final(k).procs@ == old(k).procs@
            && *final(exit_code_ptr) == *old(exit_code_ptr),
        r >= 0 ==> exists|m: int| {
            let c = old(k).tcb(cur as int).children@[m] as int;
            &&& 0 <= m < old(k).tcb(cur as int).children@.len()
            &&& #[trigger] waitpid_reapable_at(*old(k), cur as int, pid, m)
            &&& (forall|j: int| 0 <= j < m
                ==> !waitpid_reapable_at(*old(k), cur as int, pid, j))
            &&& r == c
            &&& *final(exit_code_ptr) == old(k).tcb(c).exit_code
            &&& final(k).procs@.len() == old(k).procs@.len()
            &&& final(k).procs@[c] is None
            &&& final(k).procs@[cur as int] is Some
            &&& with_children(
                old(k).tcb(cur as int),
                final(k).tcb(cur as int),
                old(k).tcb(cur as int).children@.remove(m),
            )
            &&& (forall|i: int| 0 <= i < old(k).procs@.len() && i != cur && i != c
                ==> final(k).procs@[i] == old(k).procs@[i])
        },
{
    let num = {
        let slot = &k.procs[cur];
        slot.as_ref().unwrap().children.len()
    };
    let mut any_match = false;
    let mut found = false;
    let mut found_idx: usize = 0;
    let mut i: usize = 0;
    while i < num
        invariant
            k.wf(),
            k.live(cur as int),
            num == k.tcb(cur as int).children@.len(),
            i <= num,
            any_match == (exists|j: int|
                0 <= j < i && #[trigger] waitpid_match_at(*k, cur as int, pid, j)),
            found ==> found_idx < i
                && waitpid_reapable_at(*k, cur as int, pid, found_idx as int)
                && (forall|j: int| 0 <= j < found_idx
                    ==> !waitpid_reapable_at(*k, cur as int, pid, j)),
            !found ==> (forall|j: int| 0 <= j < i
                ==> !#[trigger] waitpid_reapable_at(*k, cur as int, pid, j)),
        decreases num - i,
    {
        proof {
            assert(k.slot_ok(cur as int));
        }
        let (cpid, is_match) = {
            let slot = &k.procs[cur];
            let p = slot.as_ref().unwrap();
            let cpid = p.children[i];
            (cpid, pid == -1 || (pid >= 0 && cpid == pid as usize))
        };
        if is_match {
            any_match = true;
            proof {
                assert(waitpid_match_at(*k, cur as int, pid, i as int));
            }
            if !found {
                let zomb = {
                    let cslot = &k.procs[cpid];
                    cslot.as_ref().unwrap().is_zombie()
                };
                if zomb {
                    found = true;
                    found_idx = i;
                    proof {
                        assert(waitpid_reapable_at(*k, cur as int, pid, i as int));
                    }
                } else {
                    proof {
                        assert(!waitpid_reapable_at(*k, cur as int, pid, i as int));
                    }
                }
            }
        } else {
            proof {
                assert(!waitpid_match_at(*k, cur as int, pid, i as int));
                assert(!waitpid_reapable_at(*k, cur as int, pid, i as int));
            }
        }
        i = i + 1;
    }
    if !any_match {
        return -1;
    }
    if !found {
        return -2;
    }
    let idx = found_idx;
    let c = {
        let slot = &k.procs[cur];
        slot.as_ref().unwrap().children[idx]
    };
    proof {
        assert(old(k).slot_ok(cur as int));
    }
    match &mut k.procs[cur] {
        Some(p) => {
            let removed = p.children.remove(idx);
        },
        None => {},
    }
    let code = {
        let cslot = &k.procs[c];
        cslot.as_ref().unwrap().exit_code
    };
    *exit_code_ptr = code;
    k.procs[c] = None;
    proof {
        lemma_wf_after_reap(*old(k), *k, cur as int, idx as int);
        assert(waitpid_reapable_at(*old(k), cur as int, pid, idx as int));
    }
    c as isize
}

} // verus!
