//! The scheduling core of the thread pools: the priority queue of the
//! compute pool with its metrics, and the round-robin choice of the I/O pool.
//!
//! The threads themselves, their channels and the lock around the queue live
//! with the caller; this module decides which task runs next and keeps count.
use vstd::prelude::*;

verus! {

/// Default number of workers when the number of CPUs cannot be found.
pub const DEFAULT_POOL_CAPACITY: usize = 4;

/// The priority of a compute task.
#[derive(Debug, Clone, Copy, PartialEq, Eq, PartialOrd, Ord, Structural)]
pub enum TaskPriority {
    Low,
    Normal,
    High,
    Critical,
}

impl TaskPriority {
    /// The rank of a priority: Low 0, Normal 1, High 2, Critical 3.
    pub open spec fn spec_rank(self) -> int {
        match self {
            TaskPriority::Low => 0,
            TaskPriority::Normal => 1,
            TaskPriority::High => 2,
            TaskPriority::Critical => 3,
        }
    }

    /// The rank of this priority: Low 0, Normal 1, High 2, Critical 3.
    pub fn rank(self) -> (r: u8)
        ensures
            r == self.spec_rank(),
    {
        match self {
            TaskPriority::Low => 0,
            TaskPriority::Normal => 1,
            TaskPriority::High => 2,
            TaskPriority::Critical => 3,
        }
    }
}

/// Counters of the compute pool.
#[derive(Debug, Clone, Copy)]
pub struct ComputePoolMetrics {
    pub tasks_submitted: u64,
    pub tasks_completed: u64,
    pub tasks_failed: u64,
    pub active_workers: usize,
    pub queue_depth_low: usize,
    pub queue_depth_normal: usize,
    pub queue_depth_high: usize,
    pub queue_depth_critical: usize,
    pub total_execution_time_ns: u64,
}

impl Default for ComputePoolMetrics {
    fn default() -> (m: Self)
        ensures
            m == ComputePoolMetrics::zero(),
    {
        ComputePoolMetrics {
            tasks_submitted: 0,
            tasks_completed: 0,
            tasks_failed: 0,
            active_workers: 0,
            queue_depth_low: 0,
            queue_depth_normal: 0,
            queue_depth_high: 0,
            queue_depth_critical: 0,
            total_execution_time_ns: 0,
        }
    }
}

impl ComputePoolMetrics {
    /// All counters at zero.
    pub open spec fn zero() -> ComputePoolMetrics {
        ComputePoolMetrics {
            tasks_submitted: 0,
            tasks_completed: 0,
            tasks_failed: 0,
            active_workers: 0,
            queue_depth_low: 0,
            queue_depth_normal: 0,
            queue_depth_high: 0,
            queue_depth_critical: 0,
            total_execution_time_ns: 0,
        }
    }

    /// The queue-depth counter of a priority.
    pub open spec fn depth_of(self, p: TaskPriority) -> usize {
        match p {
            TaskPriority::Low => self.queue_depth_low,
            TaskPriority::Normal => self.queue_depth_normal,
            TaskPriority::High => self.queue_depth_high,
            TaskPriority::Critical => self.queue_depth_critical,
        }
    }

    pub fn tasks_submitted(&self) -> (r: u64)
        ensures
            r == self.tasks_submitted,
    {
        self.tasks_submitted
    }

    pub fn tasks_completed(&self) -> (r: u64)
        ensures
            r == self.tasks_completed,
    {
        self.tasks_completed
    }

    pub fn tasks_failed(&self) -> (r: u64)
        ensures
            r == self.tasks_failed,
    {
        self.tasks_failed
    }

    pub fn active_workers(&self) -> (r: usize)
        ensures
            r == self.active_workers,
    {
        self.active_workers
    }

    pub fn queue_depth_low(&self) -> (r: usize)
        ensures
            r == self.queue_depth_low,
    {
        self.queue_depth_low
    }

    pub fn queue_depth_normal(&self) -> (r: usize)
        ensures
            r == self.queue_depth_normal,
    {
        self.queue_depth_normal
    }

    pub fn queue_depth_high(&self) -> (r: usize)
        ensures
            r == self.queue_depth_high,
    {
        self.queue_depth_high
    }

    pub fn queue_depth_critical(&self) -> (r: usize)
        ensures
            r == self.queue_depth_critical,
    {
        self.queue_depth_critical
    }

    pub fn total_execution_time_ns(&self) -> (r: u64)
        ensures
            r == self.total_execution_time_ns,
    {
        self.total_execution_time_ns
    }
}

/// A queued task with its priority and submission sequence number.
pub struct PriorityTask<T> {
    pub task: T,
    pub priority: TaskPriority,
    pub sequence: u64,
}

/// What a worker does next.
pub enum WorkerStep<T> {
    /// Execute the contained task next.
    Run(PriorityTask<T>),
    /// Nothing is queued: wait for a task or for shutdown.
    Wait,
    /// The pool shuts down and nothing is left: stop.
    Exit,
}

/// The task queue of the compute pool: one first-in first-out lane per
/// priority, the highest priority served first.
pub struct ComputeQueue<T> {
    low: Vec<PriorityTask<T>>,
    normal: Vec<PriorityTask<T>>,
    high: Vec<PriorityTask<T>>,
    critical: Vec<PriorityTask<T>>,
    sequence: u64,
    metrics: ComputePoolMetrics,
    /// Tasks that workers took and have not finished.
    in_flight: Ghost<nat>,
    /// Of those, the tasks whose run has started.
    running: Ghost<nat>,
}

/// The sequence numbers of a lane rise from front to back.
pub open spec fn lane_sorted<T>(lane: Seq<PriorityTask<T>>) -> bool {
    forall|i: int, j: int| 0 <= i < j < lane.len() ==> lane[i].sequence < lane[j].sequence
}

/// Task `a` runs before task `b`: it has a higher priority, or the same
/// priority and was submitted earlier.
pub open spec fn runs_before<T>(a: PriorityTask<T>, b: PriorityTask<T>) -> bool {
    a.priority.spec_rank() > b.priority.spec_rank() || (a.priority == b.priority && a.sequence < b.sequence)
}

/// A counter that wraps at `m` and stands for `r` keeps doing so when both
/// count one up.
proof fn lemma_wrapping_increment(a: int, r: int, m: int)
    requires
        m > 1,
        r >= 0,
        a == r % m,
    ensures
        (if a + 1 > m - 1 { a + 1 - m } else { a + 1 }) == (r + 1) % m,
{
    vstd::arithmetic::div_mod::lemma_fundamental_div_mod(r, m);
    let q = r / m;
    assert((q + 1) * m == q * m + m && q * m == m * q) by (nonlinear_arith);
    if a + 1 > m - 1 {
        vstd::arithmetic::div_mod::lemma_fundamental_div_mod_converse(r + 1, m, q + 1, 0);
    } else {
        vstd::arithmetic::div_mod::lemma_fundamental_div_mod_converse(r + 1, m, q, a + 1);
    }
}

/// A counter that wraps at `m` and stands for `r > 0` keeps doing so when both
/// count one down.
proof fn lemma_wrapping_decrement(a: int, r: int, m: int)
    requires
        m > 1,
        r >= 1,
        a == r % m,
    ensures
        (if a - 1 < 0 { a - 1 + m } else { a - 1 }) == (r - 1) % m,
{
    vstd::arithmetic::div_mod::lemma_fundamental_div_mod(r, m);
    let q = r / m;
    if a - 1 < 0 {
        assert(q >= 1) by (nonlinear_arith)
            requires
                r == m * q + a,
                a == 0,
                r >= 1,
                m > 1,
        {
        }
        assert((q - 1) * m == q * m - m && q * m == m * q) by (nonlinear_arith);
        vstd::arithmetic::div_mod::lemma_fundamental_div_mod_converse(r - 1, m, q - 1, m - 1);
    } else {
        assert(q * m == m * q) by (nonlinear_arith);
        vstd::arithmetic::div_mod::lemma_fundamental_div_mod_converse(r - 1, m, q, a - 1);
    }
}

impl<T> ComputeQueue<T> {
    /// The queued tasks of a priority, oldest first.
    pub closed spec fn lane(&self, p: TaskPriority) -> Seq<PriorityTask<T>> {
        match p {
            TaskPriority::Low => self.low@,
            TaskPriority::Normal => self.normal@,
            TaskPriority::High => self.high@,
            TaskPriority::Critical => self.critical@,
        }
    }

    /// The queued tasks in the order workers take them when nothing more is
    /// submitted: the critical lane, then the high, normal and low lanes.
    pub closed spec fn run_order(&self) -> Seq<PriorityTask<T>> {
        self.critical@ + self.high@ + self.normal@ + self.low@
    }

    /// The sequence number the next submitted task gets.
    pub closed spec fn next_sequence(&self) -> u64 {
        self.sequence
    }

    /// The current counters.
    pub closed spec fn spec_metrics(&self) -> ComputePoolMetrics {
        self.metrics
    }

    /// The number of queued tasks, over all priorities.
    pub closed spec fn queued(&self) -> nat {
        self.low@.len() + self.normal@.len() + self.high@.len() + self.critical@.len()
    }

    /// The number of tasks that workers took from the queue and have not finished.
    pub closed spec fn in_flight(&self) -> nat {
        self.in_flight@
    }

    /// The number of taken tasks whose run has started and not finished.
    pub closed spec fn running(&self) -> nat {
        self.running@
    }

    spec fn lanes_ok(&self) -> bool {
        forall|p: TaskPriority| {
            &&& lane_sorted(#[trigger] self.lane(p))
            &&& forall|i: int| 0 <= i < self.lane(p).len() ==> (#[trigger] self.lane(p)[i]).priority == p
                && self.lane(p)[i].sequence < self.sequence
            &&& self.metrics.depth_of(p) == self.lane(p).len()
        }
    }

    spec fn counts_ok(&self) -> bool {
        &&& self.metrics.tasks_submitted == self.sequence
        &&& self.metrics.tasks_completed + self.metrics.tasks_failed + self.queued() + self.in_flight@
            == self.metrics.tasks_submitted
        &&& self.running@ <= self.in_flight@
        &&& self.metrics.active_workers as int == (self.running@ as int) % (usize::MAX as int + 1)
    }

    /// The queue's invariant: every lane holds tasks of its own priority in
    /// submission order, numbered below the next sequence number, and the
    /// queue-depth counters equal the lengths of the lanes; every submitted
    /// task is finished (completed or failed), queued or taken by a worker,
    /// and the active-worker counter counts the started runs.
    pub closed spec fn wf(&self) -> bool {
        &&& self.lanes_ok()
        &&& self.counts_ok()
    }

    pub fn new() -> (q: Self)
        ensures
            q.wf(),
            forall|p: TaskPriority| #[trigger] q.lane(p).len() == 0,
            q.next_sequence() == 0,
            q.spec_metrics() == ComputePoolMetrics::zero(),
            q.in_flight() == 0,
            q.running() == 0,
    {
        let q = ComputeQueue {
            low: Vec::new(),
            normal: Vec::new(),
            high: Vec::new(),
            critical: Vec::new(),
            sequence: 0,
            metrics: ComputePoolMetrics::default(),
            in_flight: Ghost(0),
            running: Ghost(0),
        };
        proof {
            vstd::arithmetic::div_mod::lemma_small_mod(0, usize::MAX as nat + 1);
        }
        q
    }

    /// The current counters.
    pub fn metrics(&self) -> (m: ComputePoolMetrics)
        ensures
            m == self.spec_metrics(),
    {
        self.metrics
    }

    /// Whether no task is queued.
    pub fn is_empty(&self) -> (r: bool)
        ensures
            r == forall|p: TaskPriority| #[trigger] self.lane(p).len() == 0,
    {
        let r = self.low.len() == 0 && self.normal.len() == 0 && self.high.len() == 0 && self.critical.len() == 0;
        proof {
            if !r {
                if self.low.len() != 0 {
                    assert(self.lane(TaskPriority::Low).len() != 0);
                } else if self.normal.len() != 0 {
                    assert(self.lane(TaskPriority::Normal).len() != 0);
                } else if self.high.len() != 0 {
                    assert(self.lane(TaskPriority::High).len() != 0);
                } else {
                    assert(self.lane(TaskPriority::Critical).len() != 0);
                }
            }
        }
        r
    }

    /// Queue a task with a priority. It gets the next sequence number and is
    /// counted as submitted and as queued at its priority.
    pub fn push(&mut self, task: T, priority: TaskPriority) -> (sequence: u64)
        requires
            old(self).wf(),
            old(self).next_sequence() < u64::MAX,
        ensures
            final(self).wf(),
            sequence == old(self).next_sequence(),
            final(self).next_sequence() == old(self).next_sequence() + 1,
            final(self).lane(priority) == old(self).lane(priority).push(
                PriorityTask { task, priority, sequence },
            ),
            forall|p: TaskPriority| p != priority ==> #[trigger] final(self).lane(p) == old(self).lane(p),
            final(self).in_flight() == old(self).in_flight(),
            final(self).running() == old(self).running(),
            final(self).spec_metrics() == (ComputePoolMetrics {
                tasks_submitted: old(self).spec_metrics().tasks_submitted.wrapping_add(1),
                queue_depth_low: final(self).spec_metrics().queue_depth_low,
                queue_depth_normal: final(self).spec_metrics().queue_depth_normal,
                queue_depth_high: final(self).spec_metrics().queue_depth_high,
                queue_depth_critical: final(self).spec_metrics().queue_depth_critical,
                ..old(self).spec_metrics()
            }),
    {
        let sequence = self.sequence;
        self.sequence = sequence + 1;
        let pt = PriorityTask { task, priority, sequence };
        self.metrics.tasks_submitted = self.metrics.tasks_submitted.wrapping_add(1);
        let ghost before = *self;
        match priority {
            TaskPriority::Low => {
                proof {
                    assert(old(self).spec_metrics().depth_of(TaskPriority::Low) == old(self).lane(TaskPriority::Low).len());
                }
                self.low.push(pt);
                let n = self.low.len();
                assert(self.metrics.queue_depth_low < n);
                self.metrics.queue_depth_low = self.metrics.queue_depth_low + 1;
            },
            TaskPriority::Normal => {
                proof {
                    assert(old(self).spec_metrics().depth_of(TaskPriority::Normal) == old(self).lane(TaskPriority::Normal).len());
                }
                self.normal.push(pt);
                let n = self.normal.len();
                assert(self.metrics.queue_depth_normal < n);
                self.metrics.queue_depth_normal = self.metrics.queue_depth_normal + 1;
            },
            TaskPriority::High => {
                proof {
                    assert(old(self).spec_metrics().depth_of(TaskPriority::High) == old(self).lane(TaskPriority::High).len());
                }
                self.high.push(pt);
                let n = self.high.len();
                assert(self.metrics.queue_depth_high < n);
                self.metrics.queue_depth_high = self.metrics.queue_depth_high + 1;
            },
            TaskPriority::Critical => {
                proof {
                    assert(old(self).spec_metrics().depth_of(TaskPriority::Critical) == old(self).lane(TaskPriority::Critical).len());
                }
                self.critical.push(pt);
                let n = self.critical.len();
                assert(self.metrics.queue_depth_critical < n);
                self.metrics.queue_depth_critical = self.metrics.queue_depth_critical + 1;
            },
        }
        proof {
            assert forall|p: TaskPriority| {
                &&& lane_sorted(#[trigger] self.lane(p))
                &&& forall|i: int| 0 <= i < self.lane(p).len() ==> (#[trigger] self.lane(p)[i]).priority == p
                    && self.lane(p)[i].sequence < self.sequence
                &&& self.metrics.depth_of(p) == self.lane(p).len()
            } by {
                assert(lane_sorted(old(self).lane(p)));
                if p == priority {
                    assert forall|i: int| 0 <= i < self.lane(p).len() implies (#[trigger] self.lane(p)[i]).priority == p
                        && self.lane(p)[i].sequence < self.sequence by {
                        if i < old(self).lane(p).len() {
                            assert(self.lane(p)[i] == old(self).lane(p)[i]);
                        }
                    }
                    assert forall|i: int, j: int| 0 <= i < j < self.lane(p).len() implies
                        self.lane(p)[i].sequence < self.lane(p)[j].sequence by {
                        assert(self.lane(p)[i] == old(self).lane(p)[i]);
                        if j < old(self).lane(p).len() {
                            assert(self.lane(p)[j] == old(self).lane(p)[j]);
                        }
                    }
                } else {
                    assert(self.lane(p) == old(self).lane(p));
                    assert forall|i: int| 0 <= i < self.lane(p).len() implies (#[trigger] self.lane(p)[i]).priority == p
                        && self.lane(p)[i].sequence < self.sequence by {
                        assert(self.lane(p)[i] == old(self).lane(p)[i]);
                    }
                }
            }
        }
        sequence
    }

    /// Remove the front task of a non-empty lane and count it out of the queue.
    fn pop_lane(&mut self, p: TaskPriority) -> (t: PriorityTask<T>)
        requires
            old(self).wf(),
            old(self).lane(p).len() > 0,
        ensures
            final(self).wf(),
            t == old(self).lane(p)[0],
            final(self).lane(p) == old(self).lane(p).drop_first(),
            forall|q: TaskPriority| q != p ==> #[trigger] final(self).lane(q) == old(self).lane(q),
            final(self).next_sequence() == old(self).next_sequence(),
            final(self).in_flight() == old(self).in_flight() + 1,
            final(self).running() == old(self).running(),
            final(self).spec_metrics() == (ComputePoolMetrics {
                queue_depth_low: final(self).spec_metrics().queue_depth_low,
                queue_depth_normal: final(self).spec_metrics().queue_depth_normal,
                queue_depth_high: final(self).spec_metrics().queue_depth_high,
                queue_depth_critical: final(self).spec_metrics().queue_depth_critical,
                ..old(self).spec_metrics()
            }),
    {
        proof {
            assert(self.metrics.depth_of(p) == self.lane(p).len());
        }
        let t = match p {
            TaskPriority::Low => {
                self.metrics.queue_depth_low = self.metrics.queue_depth_low - 1;
                self.low.remove(0)
            },
            TaskPriority::Normal => {
                self.metrics.queue_depth_normal = self.metrics.queue_depth_normal - 1;
                self.normal.remove(0)
            },
            TaskPriority::High => {
                self.metrics.queue_depth_high = self.metrics.queue_depth_high - 1;
                self.high.remove(0)
            },
            TaskPriority::Critical => {
                self.metrics.queue_depth_critical = self.metrics.queue_depth_critical - 1;
                self.critical.remove(0)
            },
        };
        self.in_flight = Ghost(self.in_flight@ + 1);
        proof {
            assert(self.lane(p) =~= old(self).lane(p).drop_first());
            assert forall|q: TaskPriority| {
                &&& lane_sorted(#[trigger] self.lane(q))
                &&& forall|i: int| 0 <= i < self.lane(q).len() ==> (#[trigger] self.lane(q)[i]).priority == q
                    && self.lane(q)[i].sequence < self.sequence
                &&& self.metrics.depth_of(q) == self.lane(q).len()
            } by {
                assert(lane_sorted(old(self).lane(q)));
                if q == p {
                    assert forall|i: int| 0 <= i < self.lane(q).len() implies (#[trigger] self.lane(q)[i]).priority == q
                        && self.lane(q)[i].sequence < self.sequence by {
                        assert(self.lane(q)[i] == old(self).lane(q)[i + 1]);
                    }
                    assert forall|i: int, j: int| 0 <= i < j < self.lane(q).len() implies
                        self.lane(q)[i].sequence < self.lane(q)[j].sequence by {
                        assert(self.lane(q)[i] == old(self).lane(q)[i + 1]);
                        assert(self.lane(q)[j] == old(self).lane(q)[j + 1]);
                    }
                } else {
                    assert(self.lane(q) == old(self).lane(q));
                    assert forall|i: int| 0 <= i < self.lane(q).len() implies (#[trigger] self.lane(q)[i]).priority == q
                        && self.lane(q)[i].sequence < self.sequence by {
                        assert(self.lane(q)[i] == old(self).lane(q)[i]);
                    }
                }
            }
        }
        t
    }

    /// Take the next task: the oldest of the highest priority that has one.
    #[verifier::rlimit(40)]
    pub fn pop(&mut self) -> (t: Option<PriorityTask<T>>)
        requires
            old(self).wf(),
        ensures
            final(self).wf(),
            final(self).next_sequence() == old(self).next_sequence(),
            final(self).running() == old(self).running(),
            final(self).in_flight() == old(self).in_flight() + if t is Some { 1nat } else { 0nat },
            match t {
                None => {
                    &&& forall|p: TaskPriority| #[trigger] old(self).lane(p).len() == 0
                    &&& forall|p: TaskPriority| #[trigger] final(self).lane(p) == old(self).lane(p)
                    &&& final(self).spec_metrics() == old(self).spec_metrics()
                    &&& old(self).run_order().len() == 0
                },
                Some(t) => {
                    let p = t.priority;
                    &&& old(self).lane(p).len() > 0
                    &&& t == old(self).lane(p)[0]
                    &&& forall|q: TaskPriority| q.spec_rank() > p.spec_rank() ==> #[trigger] old(self).lane(q).len() == 0
                    &&& final(self).lane(p) == old(self).lane(p).drop_first()
                    &&& forall|q: TaskPriority| q != p ==> #[trigger] final(self).lane(q) == old(self).lane(q)
                    &&& final(self).spec_metrics().depth_of(p) == old(self).spec_metrics().depth_of(p) - 1
                    &&& forall|q: TaskPriority| q != p ==> #[trigger] final(self).spec_metrics().depth_of(q)
                        == old(self).spec_metrics().depth_of(q)
                    &&& t == old(self).run_order()[0]
                    &&& final(self).run_order() == old(self).run_order().drop_first()
                    &&& final(self).spec_metrics() == (ComputePoolMetrics {
                        queue_depth_low: final(self).spec_metrics().queue_depth_low,
                        queue_depth_normal: final(self).spec_metrics().queue_depth_normal,
                        queue_depth_high: final(self).spec_metrics().queue_depth_high,
                        queue_depth_critical: final(self).spec_metrics().queue_depth_critical,
                        ..old(self).spec_metrics()
                    })
                },
            },
    {
        proof {
            assert(self.lane(TaskPriority::Critical)[0].priority == TaskPriority::Critical
                || self.lane(TaskPriority::Critical).len() == 0);
        }
        if self.critical.len() > 0 {
            proof {
                assert(self.lane(TaskPriority::Critical)[0].priority == TaskPriority::Critical);
            }
            let t = self.pop_lane(TaskPriority::Critical);
            proof {
                assert(self.lane(TaskPriority::Critical) == self.critical@);
                assert(self.lane(TaskPriority::High) == self.high@);
                assert(self.lane(TaskPriority::Normal) == self.normal@);
                assert(self.lane(TaskPriority::Low) == self.low@);
                assert(old(self).lane(TaskPriority::Critical) == old(self).critical@);
                assert(old(self).lane(TaskPriority::High) == old(self).high@);
                assert(old(self).lane(TaskPriority::Normal) == old(self).normal@);
                assert(old(self).lane(TaskPriority::Low) == old(self).low@);
                assert(self.run_order() =~= old(self).run_order().drop_first());
                assert(t == old(self).run_order()[0]);
            }
            Some(t)
        } else if self.high.len() > 0 {
            proof {
                assert(self.lane(TaskPriority::High)[0].priority == TaskPriority::High);
            }
            let t = self.pop_lane(TaskPriority::High);
            proof {
                assert(self.lane(TaskPriority::Critical) == self.critical@);
                assert(self.lane(TaskPriority::High) == self.high@);
                assert(self.lane(TaskPriority::Normal) == self.normal@);
                assert(self.lane(TaskPriority::Low) == self.low@);
                assert(old(self).lane(TaskPriority::Critical) == old(self).critical@);
                assert(old(self).lane(TaskPriority::High) == old(self).high@);
                assert(old(self).lane(TaskPriority::Normal) == old(self).normal@);
                assert(old(self).lane(TaskPriority::Low) == old(self).low@);
                assert(self.run_order() =~= old(self).run_order().drop_first());
                assert(t == old(self).run_order()[0]);
            }
            Some(t)
        } else if self.normal.len() > 0 {
            proof {
                assert(self.lane(TaskPriority::Normal)[0].priority == TaskPriority::Normal);
            }
            let t = self.pop_lane(TaskPriority::Normal);
            proof {
                assert(self.lane(TaskPriority::Critical) == self.critical@);
                assert(self.lane(TaskPriority::High) == self.high@);
                assert(self.lane(TaskPriority::Normal) == self.normal@);
                assert(self.lane(TaskPriority::Low) == self.low@);
                assert(old(self).lane(TaskPriority::Critical) == old(self).critical@);
                assert(old(self).lane(TaskPriority::High) == old(self).high@);
                assert(old(self).lane(TaskPriority::Normal) == old(self).normal@);
                assert(old(self).lane(TaskPriority::Low) == old(self).low@);
                assert(self.run_order() =~= old(self).run_order().drop_first());
                assert(t == old(self).run_order()[0]);
            }
            Some(t)
        } else if self.low.len() > 0 {
            proof {
                assert(self.lane(TaskPriority::Low)[0].priority == TaskPriority::Low);
            }
            let t = self.pop_lane(TaskPriority::Low);
            proof {
                assert(self.lane(TaskPriority::Critical) == self.critical@);
                assert(self.lane(TaskPriority::High) == self.high@);
                assert(self.lane(TaskPriority::Normal) == self.normal@);
                assert(self.lane(TaskPriority::Low) == self.low@);
                assert(old(self).lane(TaskPriority::Critical) == old(self).critical@);
                assert(old(self).lane(TaskPriority::High) == old(self).high@);
                assert(old(self).lane(TaskPriority::Normal) == old(self).normal@);
                assert(old(self).lane(TaskPriority::Low) == old(self).low@);
                assert(self.run_order() =~= old(self).run_order().drop_first());
                assert(t == old(self).run_order()[0]);
            }
            Some(t)
        } else {
            proof {
                assert forall|p: TaskPriority| #[trigger] old(self).lane(p).len() == 0 by {
                    match p {
                        TaskPriority::Low => {},
                        TaskPriority::Normal => {},
                        TaskPriority::High => {},
                        TaskPriority::Critical => {},
                    }
                }
            }
            proof {
                assert(old(self).lane(TaskPriority::Critical) == old(self).critical@);
                assert(old(self).lane(TaskPriority::High) == old(self).high@);
                assert(old(self).lane(TaskPriority::Normal) == old(self).normal@);
                assert(old(self).lane(TaskPriority::Low) == old(self).low@);
                assert(old(self).run_order() =~= Seq::<PriorityTask<T>>::empty());
            }
            None
        }
    }

    /// What a worker does next: run the next task if one is queued (even
    /// during shutdown, so the queue drains), else stop if the pool shuts
    /// down, else wait.
    pub fn next_step(&mut self, shutdown: bool) -> (s: WorkerStep<T>)
        requires
            old(self).wf(),
        ensures
            final(self).wf(),
            match s {
                WorkerStep::Run(t) => {
                    let p = t.priority;
                    &&& old(self).lane(p).len() > 0
                    &&& t == old(self).lane(p)[0]
                    &&& forall|q: TaskPriority| q.spec_rank() > p.spec_rank() ==> #[trigger] old(self).lane(q).len() == 0
                    &&& final(self).lane(p) == old(self).lane(p).drop_first()
                    &&& forall|q: TaskPriority| q != p ==> #[trigger] final(self).lane(q) == old(self).lane(q)
                    &&& final(self).spec_metrics().depth_of(p) == old(self).spec_metrics().depth_of(p) - 1
                    &&& forall|q: TaskPriority| q != p ==> #[trigger] final(self).spec_metrics().depth_of(q)
                        == old(self).spec_metrics().depth_of(q)
                    &&& t == old(self).run_order()[0]
                    &&& final(self).run_order() == old(self).run_order().drop_first()
                    &&& final(self).spec_metrics() == (ComputePoolMetrics {
                        queue_depth_low: final(self).spec_metrics().queue_depth_low,
                        queue_depth_normal: final(self).spec_metrics().queue_depth_normal,
                        queue_depth_high: final(self).spec_metrics().queue_depth_high,
                        queue_depth_critical: final(self).spec_metrics().queue_depth_critical,
                        ..old(self).spec_metrics()
                    })
                },
                WorkerStep::Wait => !shutdown && forall|p: TaskPriority| #[trigger] old(self).lane(p).len() == 0,
                WorkerStep::Exit => shutdown && forall|p: TaskPriority| #[trigger] old(self).lane(p).len() == 0,
            },
            !(s is Run) ==> final(self).spec_metrics() == old(self).spec_metrics() && forall|p: TaskPriority| #[trigger] final(self).lane(p) == old(self).lane(p),
            final(self).next_sequence() == old(self).next_sequence(),
            final(self).running() == old(self).running(),
            final(self).in_flight() == old(self).in_flight() + if s is Run { 1nat } else { 0nat },
    {
        match self.pop() {
            Some(t) => WorkerStep::Run(t),
            None => if shutdown {
                WorkerStep::Exit
            } else {
                WorkerStep::Wait
            },
        }
    }

    /// Count a worker as busy with a task.
    pub fn record_start(&mut self)
        requires
            old(self).wf(),
            old(self).running() < old(self).in_flight(),
        ensures
            final(self).wf(),
            final(self).spec_metrics() == (ComputePoolMetrics {
                active_workers: old(self).spec_metrics().active_workers.wrapping_add(1),
                ..old(self).spec_metrics()
            }),
            forall|p: TaskPriority| #[trigger] final(self).lane(p) == old(self).lane(p),
            final(self).next_sequence() == old(self).next_sequence(),
            final(self).in_flight() == old(self).in_flight(),
            final(self).running() == old(self).running() + 1,
    {
        self.metrics.active_workers = self.metrics.active_workers.wrapping_add(1);
        self.running = Ghost(self.running@ + 1);
        proof {
            lemma_wrapping_increment(
                old(self).metrics.active_workers as int,
                old(self).running@ as int,
                usize::MAX as int + 1,
            );
            assert forall|p: TaskPriority| {
                &&& lane_sorted(#[trigger] self.lane(p))
                &&& forall|i: int| 0 <= i < self.lane(p).len() ==> (#[trigger] self.lane(p)[i]).priority == p
                    && self.lane(p)[i].sequence < self.sequence
                &&& self.metrics.depth_of(p) == self.lane(p).len()
            } by {
                assert(self.lane(p) == old(self).lane(p));
                assert(self.metrics.depth_of(p) == old(self).metrics.depth_of(p));
            }
        }
    }

    /// Count a task as finished (or failed, when it panicked) after running
    /// for `elapsed_ns` nanoseconds, and its worker as free again.
    pub fn record_finish(&mut self, succeeded: bool, elapsed_ns: u64)
        requires
            old(self).wf(),
            old(self).running() > 0,
        ensures
            final(self).spec_metrics() == (ComputePoolMetrics {
                total_execution_time_ns: old(self).spec_metrics().total_execution_time_ns.wrapping_add(elapsed_ns),
                active_workers: old(self).spec_metrics().active_workers.wrapping_sub(1),
                tasks_completed: if succeeded {
                    old(self).spec_metrics().tasks_completed.wrapping_add(1)
                } else {
                    old(self).spec_metrics().tasks_completed
                },
                tasks_failed: if succeeded {
                    old(self).spec_metrics().tasks_failed
                } else {
                    old(self).spec_metrics().tasks_failed.wrapping_add(1)
                },
                ..old(self).spec_metrics()
            }),
            forall|p: TaskPriority| #[trigger] final(self).lane(p) == old(self).lane(p),
            final(self).next_sequence() == old(self).next_sequence(),
            final(self).wf(),
            final(self).in_flight() == old(self).in_flight() - 1,
            final(self).running() == old(self).running() - 1,
    {
        self.metrics.total_execution_time_ns = self.metrics.total_execution_time_ns.wrapping_add(elapsed_ns);
        self.metrics.active_workers = self.metrics.active_workers.wrapping_sub(1);
        if succeeded {
            self.metrics.tasks_completed = self.metrics.tasks_completed.wrapping_add(1);
        } else {
            self.metrics.tasks_failed = self.metrics.tasks_failed.wrapping_add(1);
        }
        self.running = Ghost((self.running@ - 1) as nat);
        self.in_flight = Ghost((self.in_flight@ - 1) as nat);
        proof {
            lemma_wrapping_decrement(
                old(self).metrics.active_workers as int,
                old(self).running@ as int,
                usize::MAX as int + 1,
            );
            assert forall|p: TaskPriority| {
                &&& lane_sorted(#[trigger] self.lane(p))
                &&& forall|i: int| 0 <= i < self.lane(p).len() ==> (#[trigger] self.lane(p)[i]).priority == p
                    && self.lane(p)[i].sequence < self.sequence
                &&& self.metrics.depth_of(p) == self.lane(p).len()
            } by {
                assert(self.lane(p) == old(self).lane(p));
                assert(self.metrics.depth_of(p) == old(self).metrics.depth_of(p));
            }
        }
    }
}

/// The task that `pop` takes comes first in the order of the queue: no queued
/// task has a higher priority, and none of the same priority was submitted
/// earlier (has a lower sequence number).
pub proof fn popped_task_comes_first<T>(q: ComputeQueue<T>, p: TaskPriority, r: TaskPriority, i: int)
    requires
        q.wf(),
        q.lane(p).len() > 0,
        forall|o: TaskPriority| o.spec_rank() > p.spec_rank() ==> #[trigger] q.lane(o).len() == 0,
        0 <= i < q.lane(r).len(),
    ensures
        q.lane(r)[i].priority.spec_rank() <= q.lane(p)[0].priority.spec_rank(),
        q.lane(r)[i].priority == q.lane(p)[0].priority ==> q.lane(p)[0].sequence <= q.lane(r)[i].sequence,
{
    assert(lane_sorted(q.lane(r)));
    assert(q.lane(r)[i].priority == r);
    assert(q.lane(p)[0].priority == p);
    if r.spec_rank() > p.spec_rank() {
        assert(q.lane(r).len() == 0);
    }
    if r == p && i > 0 {
        assert(q.lane(p)[0].sequence < q.lane(p)[i].sequence);
    }
}

/// The queue-depth counters always equal the number of queued tasks of each priority.
pub proof fn queue_depth_counts_queued_tasks<T>(q: ComputeQueue<T>, p: TaskPriority)
    requires
        q.wf(),
    ensures
        q.spec_metrics().depth_of(p) == q.lane(p).len(),
{
}

/// Tasks of one priority run in the order they were submitted: pushing a task
/// puts it behind every task of its priority that is already queued.
pub proof fn same_priority_runs_in_submission_order<T>(q: ComputeQueue<T>, p: TaskPriority, i: int, j: int)
    requires
        q.wf(),
        0 <= i < j < q.lane(p).len(),
    ensures
        q.lane(p)[i].sequence < q.lane(p)[j].sequence,
{
    assert(lane_sorted(q.lane(p)));
}

/// Every submitted task is accounted for: it has finished (completed or
/// failed), is still queued, or was taken by a worker. The submitted counter
/// is the next sequence number, and no more runs are started than tasks taken.
pub proof fn submitted_tasks_are_accounted_for<T>(q: ComputeQueue<T>)
    requires
        q.wf(),
    ensures
        q.spec_metrics().tasks_submitted == q.next_sequence(),
        q.spec_metrics().tasks_completed + q.spec_metrics().tasks_failed + q.queued() + q.in_flight()
            == q.spec_metrics().tasks_submitted,
        q.queued() == q.lane(TaskPriority::Low).len() + q.lane(TaskPriority::Normal).len() + q.lane(
            TaskPriority::High,
        ).len() + q.lane(TaskPriority::Critical).len(),
        q.running() <= q.in_flight(),
{
}

/// Once every submitted task has finished (none is queued and none is held by
/// a worker), the completed and the failed tasks add up to the submitted ones,
/// no worker counts as active and every queue depth is zero.
pub proof fn finished_pool_counters_balance<T>(q: ComputeQueue<T>)
    requires
        q.wf(),
        forall|p: TaskPriority| #[trigger] q.lane(p).len() == 0,
        q.in_flight() == 0,
    ensures
        q.spec_metrics().tasks_completed + q.spec_metrics().tasks_failed == q.spec_metrics().tasks_submitted,
        q.spec_metrics().active_workers == 0,
        forall|p: TaskPriority| #[trigger] q.spec_metrics().depth_of(p) == 0,
{
    assert(q.lane(TaskPriority::Low).len() == 0);
    assert(q.lane(TaskPriority::Normal).len() == 0);
    assert(q.lane(TaskPriority::High).len() == 0);
    assert(q.lane(TaskPriority::Critical).len() == 0);
    vstd::arithmetic::div_mod::lemma_small_mod(0, usize::MAX as nat + 1);
}

/// The position of a task in the run order: its lane's rank, counted from
/// the critical lane, and its place in that lane.
spec fn order_rank<T>(q: ComputeQueue<T>, i: int) -> (int, int) {
    let c = q.lane(TaskPriority::Critical).len() as int;
    let h = q.lane(TaskPriority::High).len() as int;
    let n = q.lane(TaskPriority::Normal).len() as int;
    if i < c {
        (0, i)
    } else if i < c + h {
        (1, i - c)
    } else if i < c + h + n {
        (2, i - c - h)
    } else {
        (3, i - c - h - n)
    }
}

/// The task at position `i` of the run order is the one at its place in its lane.
proof fn lemma_run_order_at<T>(q: ComputeQueue<T>, i: int)
    requires
        q.wf(),
        0 <= i < q.run_order().len(),
    ensures
        ({
            let (r, k) = order_rank(q, i);
            let p = if r == 0 {
                TaskPriority::Critical
            } else if r == 1 {
                TaskPriority::High
            } else if r == 2 {
                TaskPriority::Normal
            } else {
                TaskPriority::Low
            };
            &&& 0 <= k < q.lane(p).len()
            &&& q.run_order()[i] == q.lane(p)[k]
            &&& q.run_order()[i].priority == p
            &&& p.spec_rank() == 3 - r
        }),
{
    assert(q.lane(TaskPriority::Critical) == q.critical@);
    assert(q.lane(TaskPriority::High) == q.high@);
    assert(q.lane(TaskPriority::Normal) == q.normal@);
    assert(q.lane(TaskPriority::Low) == q.low@);
    let (r, k) = order_rank(q, i);
    let p = if r == 0 {
        TaskPriority::Critical
    } else if r == 1 {
        TaskPriority::High
    } else if r == 2 {
        TaskPriority::Normal
    } else {
        TaskPriority::Low
    };
    assert(lane_sorted(q.lane(p)));
    assert(q.lane(p)[k].priority == p);
}

/// Queued tasks are taken in the run order, front first (see `pop` and
/// `next_step`), and that order puts one task before another exactly when it
/// has a higher priority, or the same priority and was submitted earlier.
pub proof fn run_order_is_priority_then_submission<T>(q: ComputeQueue<T>, i: int, j: int)
    requires
        q.wf(),
        0 <= i < q.run_order().len(),
        0 <= j < q.run_order().len(),
    ensures
        i < j <==> runs_before(q.run_order()[i], q.run_order()[j]),
{
    lemma_run_order_at(q, i);
    lemma_run_order_at(q, j);
    let (ri, ki) = order_rank(q, i);
    let (rj, kj) = order_rank(q, j);
    let pi = q.run_order()[i].priority;
    assert(lane_sorted(q.lane(pi)));
}

/// The worker that the `ticket`-th task goes to, round robin over `workers` workers.
pub fn round_robin_worker(ticket: usize, workers: usize) -> (r: usize)
    requires
        workers > 0,
    ensures
        r == ticket % workers,
        r < workers,
{
    ticket % workers
}

} // verus!
