//! The ready-queue manager: an unordered collection of references to Ready
//! processes, selected by minimal `(round, pass)` scheduling key.
//!
//! The queue is process-wide state behind one exclusive-access point; here
//! it is passed explicitly, which makes the single-writer discipline a
//! compile-time property of `&mut` instead of a runtime check.

use vstd::prelude::*;
use crate::info::{key_lt, Priority};
use std::collections::VecDeque;

verus! {

/// One entry of the ready queue: a reference to a Ready process, by pid,
/// together with its scheduling key. Only the executor dispatches a Ready
/// process, so its key cannot change while it waits in the queue.
#[derive(Clone, Copy, Debug)]
pub struct ReadyTask {
    pub pid: usize,
    pub key: Priority,
}

/// The index of the first entry with minimal key among the first `n`
/// entries: a later entry displaces the running minimum only when its key
/// is strictly smaller.
pub open spec fn min_key_index_upto(s: Seq<ReadyTask>, n: int) -> int
    decreases n,
{
    if n <= 1 {
        0
    } else {
        let m = min_key_index_upto(s, n - 1);
        if key_lt(s[n - 1].key, s[m].key) {
            n - 1
        } else {
            m
        }
    }
}

/// The index of the first entry with minimal key.
pub open spec fn min_key_index(s: Seq<ReadyTask>) -> int {
    min_key_index_upto(s, s.len() as int)
}

/// The first minimal index is in range, no earlier prefix entry has a
/// smaller-or-equal key, and no entry at all has a smaller one.
pub proof fn lemma_min_key_index_upto(s: Seq<ReadyTask>, n: int)
    requires
        1 <= n <= s.len(),
    ensures
        0 <= min_key_index_upto(s, n) < n,
        forall|j: int| 0 <= j < n ==> !key_lt(#[trigger] s[j].key, s[min_key_index_upto(s, n)].key),
        forall|j: int| 0 <= j < min_key_index_upto(s, n)
            ==> key_lt(s[min_key_index_upto(s, n)].key, #[trigger] s[j].key),
    decreases n,
{
    if n > 1 {
        lemma_min_key_index_upto(s, n - 1);
    }
}

/// As `lemma_min_key_index_upto`, over the whole sequence: `fetch` selects
/// the entry with the minimum key, first occurrence winning exact ties.
pub proof fn lemma_min_key_index(s: Seq<ReadyTask>)
    requires
        s.len() >= 1,
    ensures
        0 <= min_key_index(s) < s.len(),
        forall|j: int| 0 <= j < s.len()
            ==> !key_lt(#[trigger] s[j].key, s[min_key_index(s)].key),
        forall|j: int| 0 <= j < min_key_index(s)
            ==> key_lt(s[min_key_index(s)].key, #[trigger] s[j].key),
{
    lemma_min_key_index_upto(s, s.len() as int);
}

/// The ready queue of the scheduler.
#[derive(Debug)]
pub struct TaskManager {
    pub task_queue: VecDeque<ReadyTask>,
}

impl TaskManager {
    /// An empty ready queue.
    pub fn new() -> (r: Self)
        ensures
            r.task_queue@.len() == 0,
    {
        TaskManager { task_queue: VecDeque::new() }
    }

    /// Insert a Ready process. A task whose `pass` is still 0 (never yet
    /// scheduled, or re-weighted at the origin) goes to the traversal
    /// front; all others are appended at the back. Among equal keys the
    /// earlier position wins selection, so this deterministically favours
    /// the most recently introduced zero-pass task.
    pub fn add(&mut self, task: ReadyTask)
        ensures
            task.key.pass == 0
                ==> final(self).task_queue@ == seq![task] + old(self).task_queue@,
            task.key.pass != 0
                ==> final(self).task_queue@ == old(self).task_queue@.push(task),
    {
        if task.key.pass == 0 {
            self.task_queue.push_front(task);
        } else {
            self.task_queue.push_back(task);
        }
    }

    /// Remove and return the entry with the minimum `(round, pass)` key,
    /// first occurrence winning exact ties; none when the queue is empty.
    pub fn fetch(&mut self) -> (r: Option<ReadyTask>)
        ensures
            old(self).task_queue@.len() == 0 ==> {
                &&& r is None
                &&& final(self).task_queue@ == old(self).task_queue@
            },
            old(self).task_queue@.len() > 0 ==> {
                &&& r == Some(old(self).task_queue@[min_key_index(old(self).task_queue@)])
                &&& final(self).task_queue@
                    == old(self).task_queue@.remove(min_key_index(old(self).task_queue@))
            },
    {
        let n = self.task_queue.len();
        if n == 0 {
            return None;
        }
        let mut best: usize = 0;
        let mut i: usize = 1;
        while i < n
            invariant
                1 <= i <= n,
                n == self.task_queue@.len(),
                best == min_key_index_upto(self.task_queue@, i as int),
                0 <= best < i,
            decreases n - i,
        {
            let cand = self.task_queue[i];
            let cur = self.task_queue[best];
            if cand.key.round < cur.key.round
                || (cand.key.round == cur.key.round && cand.key.pass < cur.key.pass) {
                best = i;
            }
            i = i + 1;
        }
        self.task_queue.remove(best)
    }
}

/// Insert a Ready process into the given ready queue; see
/// [`TaskManager::add`] for the placement policy.
pub fn add_task(manager: &mut TaskManager, task: ReadyTask)
    ensures
        task.key.pass == 0
            ==> final(manager).task_queue@ == seq![task] + old(manager).task_queue@,
        task.key.pass != 0
            ==> final(manager).task_queue@ == old(manager).task_queue@.push(task),
{
    manager.add(task);
}

/// Take the next process out of the given ready queue; see
/// [`TaskManager::fetch`] for the selection rule.
pub fn fetch_task(manager: &mut TaskManager) -> (r: Option<ReadyTask>)
    ensures
        old(manager).task_queue@.len() == 0 ==> {
            &&& r is None
            &&& final(manager).task_queue@ == old(manager).task_queue@
        },
        old(manager).task_queue@.len() > 0 ==> {
            &&& r == Some(old(manager).task_queue@[min_key_index(old(manager).task_queue@)])
            &&& final(manager).task_queue@
                == old(manager).task_queue@.remove(min_key_index(old(manager).task_queue@))
        },
{
    manager.fetch()
}

/// An `add` into an empty queue followed immediately by a `fetch` hands
/// the same element back: however the insertion policy placed it, the
/// queue then holds exactly that element and the minimum-key selection
/// picks it.
pub proof fn lemma_add_then_fetch_singleton(q: Seq<ReadyTask>, t: ReadyTask)
    requires
        q.len() == 0,
    ensures
        ({
            let q2 = if t.key.pass == 0 {
                seq![t] + q
            } else {
                q.push(t)
            };
            q2.len() == 1 && q2[min_key_index(q2)] == t && q2.remove(min_key_index(q2)).len() == 0
        }),
{
    let q2 = if t.key.pass == 0 { seq![t] + q } else { q.push(t) };
    assert(q2 =~= seq![t]);
    assert(min_key_index(q2) == 0);
}

/// The tie-break on equal keys: two tasks both at key `(0, 0)`, added in
/// order `a` then `b` to an empty queue, both go to the queue front, and
/// the next `fetch` selects `b` — the most recent zero-pass insertion.
pub proof fn lemma_zero_pass_tie_break(q: Seq<ReadyTask>, a: ReadyTask, b: ReadyTask)
    requires
        q.len() == 0,
        a.key.pass == 0,
        a.key.round == 0,
        b.key.pass == 0,
        b.key.round == 0,
    ensures
        ({
            let q2 = seq![b] + (seq![a] + q);
            min_key_index(q2) == 0 && q2[min_key_index(q2)] == b
        }),
{
    let q1 = seq![a] + q;
    let q2 = seq![b] + q1;
    assert(q2 =~= seq![b, a]);
    assert(q2.len() == 2);
    assert(min_key_index_upto(q2, 1) == 0);
    assert(!key_lt(q2[1].key, q2[0].key));
    assert(min_key_index_upto(q2, 2) == 0);
}

} // verus!
