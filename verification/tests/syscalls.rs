use os5::info::Info;
use os5::loader::Loader;
use os5::manager::TaskManager;
use os5::mm::change_port_to_permission;
use os5::syscall::{
    sys_exec, sys_exit, sys_fork, sys_get_time, sys_getpid, sys_mmap, sys_munmap,
    sys_set_priority, sys_spawn, sys_task_info, sys_waitpid, sys_yield, TaskInfo, TimeVal,
};
use os5::task::{ProcTable, TaskStatus};

fn table_with_two_children() -> (ProcTable, TaskManager) {
    let mut k = ProcTable::new();
    let mut m = TaskManager::new();
    let c1 = sys_fork(&mut k, &mut m, 0);
    let c2 = sys_fork(&mut k, &mut m, 0);
    assert_eq!(c1, 1);
    assert_eq!(c2, 2);
    (k, m)
}

#[test]
fn set_priority_rejects_small_weights() {
    let mut k = ProcTable::new();
    assert_eq!(sys_set_priority(&mut k, 0, 1), -1);
    assert_eq!(sys_set_priority(&mut k, 0, 0), -1);
    assert_eq!(sys_set_priority(&mut k, 0, -5), -1);
    // unchanged
    assert_eq!(k.procs[0].as_ref().unwrap().info.priority.priority, 16);
}

#[test]
fn set_priority_echoes_and_persists_valid_weights() {
    let mut k = ProcTable::new();
    assert_eq!(sys_set_priority(&mut k, 0, 2), 2);
    assert_eq!(k.procs[0].as_ref().unwrap().info.priority.priority, 2);
    assert_eq!(sys_set_priority(&mut k, 0, 100), 100);
    assert_eq!(k.procs[0].as_ref().unwrap().info.priority.priority, 100);
    // re-weighting does not reset the accumulated key
    assert_eq!(k.procs[0].as_ref().unwrap().info.priority.pass, 0);
    assert_eq!(k.procs[0].as_ref().unwrap().info.priority.round, 0);
}

#[test]
fn getpid_is_the_caller_pid() {
    let (k, _m) = table_with_two_children();
    assert_eq!(sys_getpid(&k, 0), 0);
    assert_eq!(sys_getpid(&k, 2), 2);
}

#[test]
fn fork_child_observes_zero_parent_observes_child_pid() {
    let mut k = ProcTable::new();
    let mut m = TaskManager::new();
    let r = sys_fork(&mut k, &mut m, 0);
    assert_eq!(r, 1); // the parent path gets the child's pid
    assert_ne!(sys_getpid(&k, r as usize), sys_getpid(&k, 0));
    let child = k.procs[1].as_ref().unwrap();
    assert_eq!(child.trap_cx.a0, 0); // the child path reads 0
    assert_eq!(child.parent, Some(0));
    assert!(matches!(child.status, TaskStatus::Ready));
    assert_eq!(child.info.priority.pass, 0);
    assert_eq!(child.info.priority.round, 0);
    // the parent now owns the child
    assert_eq!(k.procs[0].as_ref().unwrap().children, vec![1]);
    // the child was enqueued Ready
    assert_eq!(m.fetch().unwrap().pid, 1);
}

#[test]
fn fork_copies_the_address_space() {
    let mut k = ProcTable::new();
    let mut m = TaskManager::new();
    assert_eq!(sys_mmap(&mut k, 0, 0x3000, 0x1000, 3), 0);
    let r = sys_fork(&mut k, &mut m, 0) as usize;
    assert!(k.procs[r].as_ref().unwrap().memory_set.contains_page(3));
}

#[test]
fn waitpid_reaps_one_zombie_then_signals_not_yet_then_no_child() {
    let (mut k, _m) = table_with_two_children();
    // child 1 runs and exits with code 7; child 2 keeps running
    k.procs[1].as_mut().unwrap().status = TaskStatus::Running;
    sys_exit(&mut k, 1, 7);
    k.procs[2].as_mut().unwrap().status = TaskStatus::Running;

    let mut code: i32 = -999;
    let r = sys_waitpid(&mut k, 0, -1, &mut code);
    assert_eq!(r, 1); // exactly the zombie child
    assert_eq!(code, 7);
    assert!(k.procs[1].is_none()); // released
    assert_eq!(k.procs[0].as_ref().unwrap().children, vec![2]);

    let r = sys_waitpid(&mut k, 0, -1, &mut code);
    assert_eq!(r, -2); // a child exists but has not exited yet
    assert_eq!(code, 7); // nothing written

    sys_exit(&mut k, 2, 0);
    let r = sys_waitpid(&mut k, 0, -1, &mut code);
    assert_eq!(r, 2);
    assert_eq!(code, 0);

    let r = sys_waitpid(&mut k, 0, -1, &mut code);
    assert_eq!(r, -1); // no children left
}

#[test]
fn waitpid_with_specific_pid_filters() {
    let (mut k, _m) = table_with_two_children();
    k.procs[1].as_mut().unwrap().status = TaskStatus::Running;
    sys_exit(&mut k, 1, 42);

    let mut code: i32 = 0;
    assert_eq!(sys_waitpid(&mut k, 0, 5, &mut code), -1); // no such child
    assert_eq!(sys_waitpid(&mut k, 0, 2, &mut code), -2); // alive child
    assert_eq!(sys_waitpid(&mut k, 0, 1, &mut code), 1);
    assert_eq!(code, 42);
    assert_eq!(sys_waitpid(&mut k, 0, 1, &mut code), -1); // already reaped
}

#[test]
fn exit_reparents_children_to_the_root() {
    let mut k = ProcTable::new();
    let mut m = TaskManager::new();
    let c = sys_fork(&mut k, &mut m, 0) as usize; // pid 1
    k.procs[c].as_mut().unwrap().status = TaskStatus::Running;
    let g = sys_fork(&mut k, &mut m, c) as usize; // grandchild, pid 2
    sys_exit(&mut k, c, 3);
    let child = k.procs[c].as_ref().unwrap();
    assert!(matches!(child.status, TaskStatus::Zombie));
    assert_eq!(child.exit_code, 3);
    assert!(child.children.is_empty());
    assert_eq!(k.procs[g].as_ref().unwrap().parent, Some(0));
    assert_eq!(k.procs[0].as_ref().unwrap().children, vec![c, g]);
}

#[test]
fn mmap_maps_a_fresh_page_aligned_range() {
    let mut k = ProcTable::new();
    assert_eq!(sys_mmap(&mut k, 0, 0x1000, 0x1000, 3), 0);
    let ms = &k.procs[0].as_ref().unwrap().memory_set;
    assert!(ms.contains_page(1));
    assert!(!ms.contains_page(2));
}

#[test]
fn mmap_rejects_overlap_misalignment_and_bad_ports() {
    let mut k = ProcTable::new();
    assert_eq!(sys_mmap(&mut k, 0, 0x1000, 0x1000, 3), 0);
    // any overlapping sub-range fails
    assert_eq!(sys_mmap(&mut k, 0, 0x1000, 0x1000, 3), -1);
    assert_eq!(sys_mmap(&mut k, 0, 0x1000, 0x800, 3), -1);
    assert_eq!(sys_mmap(&mut k, 0, 0x0, 0x1001, 3), -1);
    // misaligned start fails
    assert_eq!(sys_mmap(&mut k, 0, 0x1001, 0x1000, 3), -1);
    // no valid permission bit, or extra bits, fails
    assert_eq!(sys_mmap(&mut k, 0, 0x5000, 0x1000, 8), -1);
    assert_eq!(sys_mmap(&mut k, 0, 0x5000, 0x1000, 0), -1);
    // and nothing of the failed calls was mapped
    let ms = &k.procs[0].as_ref().unwrap().memory_set;
    assert!(ms.contains_page(1));
    assert!(!ms.contains_page(0));
    assert!(!ms.contains_page(5));
}

#[test]
fn munmap_is_all_or_nothing() {
    let mut k = ProcTable::new();
    assert_eq!(sys_mmap(&mut k, 0, 0x1000, 0x1000, 3), 0);
    // the range covers an unmapped page: fail, and the mapped page stays
    assert_eq!(sys_munmap(&mut k, 0, 0x1000, 0x2000), -1);
    assert!(k.procs[0].as_ref().unwrap().memory_set.contains_page(1));
    // misaligned start fails
    assert_eq!(sys_munmap(&mut k, 0, 0x1100, 0x100), -1);
    // exact range succeeds and releases the page
    assert_eq!(sys_munmap(&mut k, 0, 0x1000, 0x1000), 0);
    assert!(!k.procs[0].as_ref().unwrap().memory_set.contains_page(1));
    // now nothing of it is mapped any more
    assert_eq!(sys_munmap(&mut k, 0, 0x1000, 0x1000), -1);
}

#[test]
fn port_bits_decode_as_rwx() {
    assert!(change_port_to_permission(0).is_none());
    assert!(change_port_to_permission(8).is_none());
    let p = change_port_to_permission(3).unwrap();
    assert!(p.r && p.w && !p.x && p.u);
    let p = change_port_to_permission(4).unwrap();
    assert!(!p.r && !p.w && p.x && p.u);
    let p = change_port_to_permission(7).unwrap();
    assert!(p.r && p.w && p.x && p.u);
}

#[test]
fn exec_replaces_image_in_place() {
    let mut k = ProcTable::new();
    let mut app_loader = Loader::new();
    assert_eq!(app_loader.add_app(String::from("init")), 0);
    assert_eq!(app_loader.add_app(String::from("shell")), 1);

    assert_eq!(sys_exec(&mut k, &app_loader, 0, &String::from("missing"), 1_000), -1);
    assert_eq!(sys_mmap(&mut k, 0, 0x1000, 0x1000, 3), 0);
    assert_eq!(sys_exec(&mut k, &app_loader, 0, &String::from("shell"), 9_000_000), 0);
    let p = k.procs[0].as_ref().unwrap();
    assert_eq!(p.trap_cx.entry, 1);
    assert_eq!(p.trap_cx.a0, 0);
    assert_eq!(p.info.start_time, 9_000);
    // the old address space was discarded
    assert!(!p.memory_set.contains_page(1));
    // pid and links are untouched
    assert_eq!(p.pid, 0);
    assert_eq!(p.parent, None);
}

#[test]
fn spawn_builds_a_fresh_child_without_copying() {
    let mut k = ProcTable::new();
    let mut m = TaskManager::new();
    let mut app_loader = Loader::new();
    app_loader.add_app(String::from("init"));

    assert_eq!(sys_spawn(&mut k, &mut m, &app_loader, 0, &String::from("nope"), 0), -1);

    assert_eq!(sys_mmap(&mut k, 0, 0x1000, 0x1000, 3), 0);
    let r = sys_spawn(&mut k, &mut m, &app_loader, 0, &String::from("init"), 4_000_000);
    assert_eq!(r, 1);
    let c = k.procs[1].as_ref().unwrap();
    assert!(matches!(c.status, TaskStatus::Ready));
    assert_eq!(c.parent, Some(0));
    // no address-space copy of the caller
    assert!(!c.memory_set.contains_page(1));
    assert_eq!(c.trap_cx.entry, 0);
    assert_eq!(c.info.start_time, 4_000);
    assert_eq!(c.info.priority.priority, 16);
    assert_eq!(k.procs[0].as_ref().unwrap().children, vec![1]);
    assert_eq!(m.fetch().unwrap().pid, 1);
}

#[test]
fn yield_re_enqueues_the_caller_ready() {
    let mut k = ProcTable::new();
    let mut m = TaskManager::new();
    assert_eq!(sys_yield(&mut k, &mut m, 0), 0);
    assert!(matches!(k.procs[0].as_ref().unwrap().status, TaskStatus::Ready));
    assert_eq!(m.fetch().unwrap().pid, 0);
}

#[test]
fn get_time_splits_the_reading() {
    let mut tv = TimeVal { sec: 0, usec: 0 };
    assert_eq!(sys_get_time(&mut tv, 0, 3_456_789), 0);
    assert_eq!(tv.sec, 3);
    assert_eq!(tv.usec, 456_789);
}

#[test]
fn task_info_reports_status_counters_and_elapsed_time() {
    let mut k = ProcTable::new();
    {
        let info = &mut k.procs[0].as_mut().unwrap().info;
        info.record_start_time(2_000_000); // started at 2000 ms
        info.record_syscall(3);
        info.record_syscall(3);
        info.record_syscall(64);
    }
    let mut ti = TaskInfo { status: TaskStatus::Ready, syscall_times: Vec::new(), time: 0 };
    assert_eq!(sys_task_info(&k, 0, &mut ti, 5_000_000), 0);
    assert!(matches!(ti.status, TaskStatus::Running));
    assert_eq!(ti.syscall_times[3], 2);
    assert_eq!(ti.syscall_times[64], 1);
    assert_eq!(ti.syscall_times[0], 0);
    assert_eq!(ti.time, 3_000);
}

#[test]
fn during_time_counts_from_program_start() {
    let mut info: Info = Default::default();
    info.record_start_time(2_000_000);
    assert_eq!(info.start_time, 2_000);
    assert_eq!(info.during_time(5_500_000), 3_500);
}

#[test]
fn root_can_reap_an_orphaned_zombie() {
    let mut k = ProcTable::new();
    let mut m = TaskManager::new();
    let c = sys_fork(&mut k, &mut m, 0) as usize; // pid 1
    k.procs[c].as_mut().unwrap().status = TaskStatus::Running;
    let g = sys_fork(&mut k, &mut m, c) as usize; // pid 2
    k.procs[g].as_mut().unwrap().status = TaskStatus::Running;
    sys_exit(&mut k, g, 9); // grandchild exits first
    sys_exit(&mut k, c, 1); // child exits; its zombie grandchild goes to the root
    assert_eq!(k.procs[g].as_ref().unwrap().parent, Some(0));
    let mut code: i32 = 0;
    assert_eq!(sys_waitpid(&mut k, 0, g as isize, &mut code), g as isize);
    assert_eq!(code, 9);
    assert_eq!(sys_waitpid(&mut k, 0, -1, &mut code), c as isize);
    assert_eq!(code, 1);
    assert_eq!(sys_waitpid(&mut k, 0, -1, &mut code), -1);
}

#[test]
fn fork_duplicates_counters_and_weight_but_not_the_key() {
    let mut k = ProcTable::new();
    let mut m = TaskManager::new();
    k.procs[0].as_mut().unwrap().info.record_syscall(10);
    assert_eq!(sys_set_priority(&mut k, 0, 5), 5);
    k.procs[0].as_mut().unwrap().info.priority.update_pass();
    let c = sys_fork(&mut k, &mut m, 0) as usize;
    let child = k.procs[c].as_ref().unwrap();
    assert_eq!(child.info.syscall_times[10], 1);
    assert_eq!(child.info.priority.priority, 5);
    // the child has never been granted CPU time: key at the origin
    assert_eq!(child.info.priority.pass, 0);
    assert_eq!(child.info.priority.round, 0);
}
