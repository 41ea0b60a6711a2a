use os5::info::{Priority, BIG_STRIDE};
use os5::manager::{add_task, fetch_task, ReadyTask, TaskManager};

fn key(pass: u64, weight: usize, round: u32) -> Priority {
    Priority { pass, priority: weight, round }
}

#[test]
fn fresh_key_is_origin() {
    let p: Priority = Default::default();
    assert_eq!(p.pass, 0);
    assert_eq!(p.round, 0);
    assert_eq!(p.priority, 16);
}

#[test]
fn update_pass_adds_one_stride() {
    let mut p = key(0, 4, 0);
    p.update_pass();
    assert_eq!(p.pass, BIG_STRIDE / 4);
    assert_eq!(p.round, 0);
    assert_eq!(p.priority, 4);
    p.update_pass();
    assert_eq!(p.pass, 2 * (BIG_STRIDE / 4));
    assert_eq!(p.round, 0);
}

#[test]
fn update_pass_wraps_into_next_round() {
    let mut p = key(u64::MAX, 2, 0);
    p.update_pass();
    assert_eq!(p.round, 1);
    assert_eq!(p.pass, BIG_STRIDE / 2 - 1);
}

#[test]
fn update_pass_at_exact_boundary_does_not_wrap() {
    let stride = BIG_STRIDE / 2;
    let mut p = key(u64::MAX - stride, 2, 0);
    p.update_pass();
    assert_eq!(p.round, 0);
    assert_eq!(p.pass, u64::MAX);
    p.update_pass();
    assert_eq!(p.round, 1);
    assert_eq!(p.pass, stride - 1);
}

#[test]
fn key_order_is_lexicographic_on_round_then_pass() {
    let low = key(700, 2, 0);
    let high = key(3, 2, 1);
    assert!(low < high);
    assert!(high > low);
    assert!(key(3, 2, 0) < key(4, 2, 0));
    // the weight is not part of the key
    assert!(key(5, 2, 0) == key(5, 300, 0));
    assert_ne!(key(5, 2, 0), key(6, 2, 0));
}

#[test]
fn fetch_on_empty_queue_is_none() {
    let mut m = TaskManager::new();
    assert!(m.fetch().is_none());
}

#[test]
fn add_then_fetch_single_returns_it() {
    let mut m = TaskManager::new();
    m.add(ReadyTask { pid: 7, key: key(0, 16, 0) });
    let got = m.fetch().unwrap();
    assert_eq!(got.pid, 7);
    assert!(m.fetch().is_none());

    let mut m = TaskManager::new();
    m.add(ReadyTask { pid: 9, key: key(123, 16, 0) });
    let got = m.fetch().unwrap();
    assert_eq!(got.pid, 9);
    assert!(m.fetch().is_none());
}

#[test]
fn zero_pass_tie_break_favours_latest_insertion() {
    let mut m = TaskManager::new();
    m.add(ReadyTask { pid: 1, key: key(0, 16, 0) }); // A
    m.add(ReadyTask { pid: 2, key: key(0, 16, 0) }); // B
    assert_eq!(m.fetch().unwrap().pid, 2);
    assert_eq!(m.fetch().unwrap().pid, 1);
}

#[test]
fn nonzero_pass_goes_to_the_back() {
    let mut m = TaskManager::new();
    m.add(ReadyTask { pid: 1, key: key(5, 16, 0) });
    m.add(ReadyTask { pid: 2, key: key(5, 16, 0) });
    // equal nonzero keys: first occurrence (insertion order) wins
    assert_eq!(m.fetch().unwrap().pid, 1);
    assert_eq!(m.fetch().unwrap().pid, 2);
}

#[test]
fn fetch_selects_minimum_key() {
    let mut m = TaskManager::new();
    m.add(ReadyTask { pid: 1, key: key(900, 16, 0) });
    m.add(ReadyTask { pid: 2, key: key(300, 16, 0) });
    m.add(ReadyTask { pid: 3, key: key(500, 16, 0) });
    assert_eq!(m.fetch().unwrap().pid, 2);
    assert_eq!(m.fetch().unwrap().pid, 3);
    assert_eq!(m.fetch().unwrap().pid, 1);
}

#[test]
fn fetch_prefers_lower_round_over_lower_pass() {
    let mut m = TaskManager::new();
    m.add(ReadyTask { pid: 1, key: key(3, 16, 1) });
    m.add(ReadyTask { pid: 2, key: key(u64::MAX, 16, 0) });
    assert_eq!(m.fetch().unwrap().pid, 2);
    assert_eq!(m.fetch().unwrap().pid, 1);
}

#[test]
fn add_task_and_fetch_task_drive_the_queue() {
    let mut m = TaskManager::new();
    add_task(&mut m, ReadyTask { pid: 4, key: key(10, 16, 0) });
    add_task(&mut m, ReadyTask { pid: 5, key: key(2, 16, 0) });
    assert_eq!(fetch_task(&mut m).unwrap().pid, 5);
    assert_eq!(fetch_task(&mut m).unwrap().pid, 4);
    assert!(fetch_task(&mut m).is_none());
}

#[test]
fn long_run_share_is_proportional_to_weight() {
    // two perpetually-Ready tasks, weights 3 and 6: over many dispatch
    // cycles the selection counts approach 1 : 2, staying within one
    // stride step of exact proportionality at every turn.
    let (w1, w2) = (3usize, 6usize);
    let s1 = (BIG_STRIDE as i128) / (w1 as i128);
    let s2 = (BIG_STRIDE as i128) / (w2 as i128);
    let mut m = TaskManager::new();
    m.add(ReadyTask { pid: 1, key: key(0, w1, 0) });
    m.add(ReadyTask { pid: 2, key: key(0, w2, 0) });
    let (mut n1, mut n2) = (0i128, 0i128);
    for _ in 0..900 {
        let mut t = m.fetch().unwrap();
        if t.pid == 1 {
            n1 += 1;
        } else {
            n2 += 1;
        }
        t.key.update_pass();
        m.add(t);
        let dev = n1 * s1 - n2 * s2;
        let bound = if s1 > s2 { s1 } else { s2 };
        assert!(-bound <= dev && dev <= bound);
    }
    assert_eq!(n1 + n2, 900);
    // 1 : 2 share, up to the bounded deviation above
    assert!(n2 > 2 * n1 - 4 && n2 < 2 * n1 + 4);
}
