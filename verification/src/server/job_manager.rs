//! Bookkeeping of the jobs handed to workers.
//!
//! Times are instants of the host's monotonic clock, in nanoseconds.

use vstd::prelude::*;
use crate::types::JobId;

verus! {

/// Job statistics.
#[derive(Debug, Clone, Copy, PartialEq, Eq, Structural)]
pub struct JobStats {
    /// Jobs created by the server.
    pub total_jobs: usize,
    /// Jobs waiting or out with a worker.
    pub pending_jobs: usize,
    /// Jobs completed.
    pub completed_jobs: usize,
}

/// The jobs waiting for a worker and those out with one.
pub struct JobManager<J> {
    /// Jobs waiting to be handed out; the last one goes first.
    pub pending: Vec<(JobId, J)>,
    /// Jobs out with a worker, with the time they were handed out.
    pub assigned: Vec<(JobId, J, u64)>,
    pub completed_jobs: usize,
    pub total_jobs: usize,
}

/// The identifiers of the assigned jobs are distinct.
pub open spec fn assigned_distinct<J>(a: Seq<(JobId, J, u64)>) -> bool {
    forall|i: int, j: int| 0 <= i < a.len() && 0 <= j < a.len() && i != j ==> a[i].0 != a[j].0
}

/// The index of the assigned job with an identifier, or -1.
pub open spec fn assigned_index<J>(a: Seq<(JobId, J, u64)>, id: JobId) -> int {
    if exists|i: int| 0 <= i < a.len() && a[i].0 == id {
        choose|i: int| 0 <= i < a.len() && a[i].0 == id
    } else {
        -1
    }
}

/// The assigned jobs with one more, by identifier: it replaces the entry
/// with its identifier, if any, else joins at the end.
pub open spec fn with_assigned<J>(a: Seq<(JobId, J, u64)>, e: (JobId, J, u64)) -> Seq<(JobId, J, u64)> {
    let i = assigned_index(a, e.0);
    if i >= 0 { a.update(i, e) } else { a.push(e) }
}

/// The job has been out longer than `timeout` at `now` (no time has passed
/// if `now` is earlier than the assignment).
pub open spec fn timed_out<J>(e: (JobId, J, u64), now: u64, timeout: u64) -> bool {
    (if now >= e.2 { now - e.2 } else { 0 }) > timeout
}

/// The assigned jobs that have not timed out, in order.
pub open spec fn still_out<J>(a: Seq<(JobId, J, u64)>, now: u64, timeout: u64) -> Seq<(JobId, J, u64)>
    decreases a.len(),
{
    if a.len() == 0 {
        Seq::empty()
    } else if timed_out(a.last(), now, timeout) {
        still_out(a.drop_last(), now, timeout)
    } else {
        still_out(a.drop_last(), now, timeout).push(a.last())
    }
}

/// The timed-out jobs, in order, as pending entries.
pub open spec fn expired<J>(a: Seq<(JobId, J, u64)>, now: u64, timeout: u64) -> Seq<(JobId, J)>
    decreases a.len(),
{
    if a.len() == 0 {
        Seq::empty()
    } else if timed_out(a.last(), now, timeout) {
        expired(a.drop_last(), now, timeout).push((a.last().0, a.last().1))
    } else {
        expired(a.drop_last(), now, timeout)
    }
}

/// No job is lost to a timeout check: every assigned job either stays out
/// or goes back to the pending jobs.
pub proof fn lemma_timeouts_keep_every_job<J>(a: Seq<(JobId, J, u64)>, now: u64, timeout: u64)
    ensures
        still_out(a, now, timeout).len() + expired(a, now, timeout).len() == a.len(),
    decreases a.len(),
{
    if a.len() > 0 {
        lemma_timeouts_keep_every_job(a.drop_last(), now, timeout);
    }
}

/// Completing a job that was just assigned, and was not out before,
/// restores the assigned jobs as they were.
pub proof fn lemma_complete_undoes_assign<J>(a: Seq<(JobId, J, u64)>, id: JobId, job: J, now: u64)
    requires
        assigned_distinct(a),
        assigned_index(a, id) < 0,
    ensures
        ({
            let b = with_assigned(a, (id, job, now));
            &&& assigned_index(b, id) == a.len()
            &&& b.remove(assigned_index(b, id)) == a
        }),
{
    let b = with_assigned(a, (id, job, now));
    assert(b == a.push((id, job, now)));
    assert(b[a.len() as int].0 == id);
    assert(exists|i: int| 0 <= i < b.len() && b[i].0 == id);
    let i = assigned_index(b, id);
    if i != a.len() {
        assert(0 <= i < a.len() && a[i].0 == id);
        assert(exists|k: int| 0 <= k < a.len() && a[k].0 == id);
        assert(false);
    }
    assert(b.remove(a.len() as int) =~= a);
}

/// Once a job is completed it is no longer out, so completing it a second
/// time changes nothing: removing the entry of an identifier from distinct
/// assigned jobs leaves no entry with it.
pub proof fn lemma_completed_job_not_out<J>(a: Seq<(JobId, J, u64)>, id: JobId)
    requires
        assigned_distinct(a),
    ensures
        assigned_index(a, id) >= 0 ==> assigned_index(a.remove(assigned_index(a, id)), id) < 0,
        assigned_index(a, id) >= 0 ==> assigned_distinct(a.remove(assigned_index(a, id))),
{
    let i = assigned_index(a, id);
    if i >= 0 {
        let b = a.remove(i);
        assert(a[i].0 == id);
        if exists|j: int| 0 <= j < b.len() && b[j].0 == id {
            let j = choose|j: int| 0 <= j < b.len() && b[j].0 == id;
            let ja = if j < i { j } else { j + 1 };
            assert(b[j] == a[ja]);
        }
        assert forall|x: int, y: int| 0 <= x < b.len() && 0 <= y < b.len() && x != y implies b[x].0 != b[y].0 by {
            let xa = if x < i { x } else { x + 1 };
            let ya = if y < i { y } else { y + 1 };
            assert(b[x] == a[xa] && b[y] == a[ya]);
        }
    }
}

impl<J> JobManager<J> {
    /// The assigned identifiers are distinct.
    pub open spec fn wf(&self) -> bool {
        assigned_distinct(self.assigned@)
    }

    /// An empty manager.
    pub fn new() -> (r: JobManager<J>)
        ensures
            r.pending@.len() == 0,
            r.assigned@.len() == 0,
            r.completed_jobs == 0,
            r.total_jobs == 0,
            r.wf(),
    {
        JobManager { pending: Vec::new(), assigned: Vec::new(), completed_jobs: 0, total_jobs: 0 }
    }

    /// The index of an assigned job.
    fn find_assigned(&self, id: JobId) -> (r: Option<usize>)
        requires
            self.wf(),
        ensures
            r matches Some(i) ==> i < self.assigned@.len() && i == assigned_index(self.assigned@, id),
            r is None ==> assigned_index(self.assigned@, id) == -1,
    {
        let mut i: usize = 0;
        while i < self.assigned.len()
            invariant
                self.wf(),
                i <= self.assigned@.len(),
                forall|j: int| 0 <= j < i ==> self.assigned@[j].0 != id,
            decreases self.assigned@.len() - i,
        {
            if self.assigned[i].0 == id {
                return Some(i);
            }
            i += 1;
        }
        None
    }

    /// Record a job as out with a worker since `now`.
    fn assign(&mut self, id: JobId, job: J, now: u64)
        requires
            old(self).wf(),
        ensures
            final(self).wf(),
            final(self).assigned@ == with_assigned(old(self).assigned@, (id, job, now)),
            final(self).pending@ == old(self).pending@,
            final(self).completed_jobs == old(self).completed_jobs,
            final(self).total_jobs == old(self).total_jobs,
    {
        let ghost a = self.assigned@;
        match self.find_assigned(id) {
            Some(i) => {
                self.assigned.set(i, (id, job, now));
            },
            None => {
                self.assigned.push((id, job, now));
            },
        }
        proof {
            let b = self.assigned@;
            assert forall|i: int, j: int| 0 <= i < b.len() && 0 <= j < b.len() && i != j implies b[i].0 != b[j].0 by {
                if assigned_index(a, id) < 0 && (i == a.len() || j == a.len()) {
                    assert(forall|k: int| 0 <= k < a.len() ==> a[k].0 != id);
                }
            }
        }
    }

    /// Hand out the most recently queued pending job, if any: it is out
    /// with a worker from `now` on. Returns its identifier.
    pub fn assign_pending(&mut self, now: u64) -> (r: Option<JobId>)
        requires
            old(self).wf(),
        ensures
            final(self).wf(),
            old(self).pending@.len() == 0 ==> {
                &&& r is None
                &&& final(self).pending@ == old(self).pending@
                &&& final(self).assigned@ == old(self).assigned@
                &&& final(self).completed_jobs == old(self).completed_jobs
                &&& final(self).total_jobs == old(self).total_jobs
            },
            old(self).pending@.len() > 0 ==> {
                let e = old(self).pending@.last();
                &&& r == Some(e.0)
                &&& final(self).pending@ == old(self).pending@.drop_last()
                &&& final(self).assigned@ == with_assigned(old(self).assigned@, (e.0, e.1, now))
                &&& final(self).completed_jobs == old(self).completed_jobs
                &&& final(self).total_jobs == old(self).total_jobs
            },
    {
        match self.pending.pop() {
            Some((id, job)) => {
                self.assign(id, job, now);
                Some(id)
            },
            None => None,
        }
    }

    /// Record a newly created job, out with a worker from `now` on.
    pub fn assign_new(&mut self, id: JobId, job: J, now: u64)
        requires
            old(self).wf(),
            old(self).total_jobs < usize::MAX,
        ensures
            final(self).wf(),
            final(self).total_jobs == old(self).total_jobs + 1,
            final(self).assigned@ == with_assigned(old(self).assigned@, (id, job, now)),
            final(self).pending@ == old(self).pending@,
            final(self).completed_jobs == old(self).completed_jobs,
    {
        self.total_jobs += 1;
        self.assign(id, job, now);
    }

    /// The job out with a worker under an identifier.
    pub fn assigned_job(&self, id: JobId) -> (r: Option<&J>)
        requires
            self.wf(),
        ensures
            assigned_index(self.assigned@, id) >= 0 ==> r == Some(&self.assigned@[assigned_index(self.assigned@, id)].1),
            assigned_index(self.assigned@, id) < 0 ==> r is None,
    {
        match self.find_assigned(id) {
            Some(i) => Some(&self.assigned[i].1),
            None => None,
        }
    }

    /// A job came back: if it was out, it is no longer, and one more job
    /// is complete; otherwise nothing changes.
    pub fn mark_job_complete(&mut self, id: JobId)
        requires
            old(self).wf(),
            old(self).completed_jobs < usize::MAX,
        ensures
            final(self).wf(),
            final(self).pending@ == old(self).pending@,
            final(self).total_jobs == old(self).total_jobs,
            assigned_index(old(self).assigned@, id) >= 0 ==> {
                &&& final(self).assigned@ == old(self).assigned@.remove(assigned_index(old(self).assigned@, id))
                &&& final(self).completed_jobs == old(self).completed_jobs + 1
            },
            assigned_index(old(self).assigned@, id) < 0 ==> {
                &&& final(self).assigned@ == old(self).assigned@
                &&& final(self).completed_jobs == old(self).completed_jobs
            },
            assigned_index(final(self).assigned@, id) < 0,
    {
        let ghost a = self.assigned@;
        proof { lemma_completed_job_not_out(a, id); }
        match self.find_assigned(id) {
            Some(i) => {
                self.assigned.remove(i);
                self.completed_jobs += 1;
            },
            None => {},
        }
    }

    /// Jobs out longer than `timeout` at `now` go back to the pending
    /// queue, in the order they are held.
    pub fn check_timeouts(&mut self, now: u64, timeout: u64)
        requires
            old(self).wf(),
        ensures
            final(self).wf(),
            final(self).assigned@ == still_out(old(self).assigned@, now, timeout),
            final(self).pending@ == old(self).pending@ + expired(old(self).assigned@, now, timeout),
            final(self).completed_jobs == old(self).completed_jobs,
            final(self).total_jobs == old(self).total_jobs,
    {
        let ghost a = self.assigned@;
        let ghost p = self.pending@;
        let mut all: Vec<(JobId, J, u64)> = Vec::new();
        std::mem::swap(&mut all, &mut self.assigned);
        let n = all.len();
        let mut rev: Vec<(JobId, J, u64)> = Vec::new();
        while all.len() > 0
            invariant
                all@ == a.subrange(0, all@.len() as int),
                n == a.len(),
                rev@.len() == n - all@.len(),
                forall|j: int| 0 <= j < rev@.len() ==> #[trigger] rev@[j] == a[n - 1 - j],
            decreases all@.len(),
        {
            let e = all.pop().unwrap();
            rev.push(e);
        }
        let mut t: usize = 0;
        while rev.len() > 0
            invariant
                n == a.len(),
                t <= n,
                rev@.len() == n - t,
                forall|j: int| 0 <= j < rev@.len() ==> #[trigger] rev@[j] == a[n - 1 - j],
                self.assigned@ == still_out(a.take(t as int), now, timeout),
                self.pending@ == p + expired(a.take(t as int), now, timeout),
                assigned_distinct(a),
                forall|x: int| 0 <= x < self.assigned@.len() ==> exists|y: int| 0 <= y < t && #[trigger] self.assigned@[x] == a[y],
                assigned_distinct(self.assigned@),
                self.completed_jobs == old(self).completed_jobs,
                self.total_jobs == old(self).total_jobs,
                a == old(self).assigned@,
                p == old(self).pending@,
            decreases rev@.len(),
        {
            let e = rev.pop().unwrap();
            assert(e == a[t as int]);
            proof {
                assert(a.take(t + 1).drop_last() =~= a.take(t as int));
                assert(a.take(t + 1).last() == a[t as int]);
            }
            let elapsed = if now >= e.2 { now - e.2 } else { 0 };
            if elapsed > timeout {
                let (id, job, _) = e;
                self.pending.push((id, job));
                proof {
                    assert(self.pending@ =~= p + expired(a.take(t + 1), now, timeout));
                    assert forall|x: int| 0 <= x < self.assigned@.len() implies exists|y: int| 0 <= y < t + 1 && #[trigger] self.assigned@[x] == a[y] by {
                        let y = choose|y: int| 0 <= y < t && self.assigned@[x] == a[y];
                    }
                }
            } else {
                let ghost before = self.assigned@;
                self.assigned.push(e);
                proof {
                    assert forall|x: int| 0 <= x < self.assigned@.len() implies exists|y: int| 0 <= y < t + 1 && #[trigger] self.assigned@[x] == a[y] by {
                        if x < before.len() {
                            let y = choose|y: int| 0 <= y < t && before[x] == a[y];
                            assert(self.assigned@[x] == before[x]);
                        } else {
                            assert(self.assigned@[x] == a[t as int]);
                        }
                    }
                    let b = self.assigned@;
                    assert forall|x: int, y: int| 0 <= x < b.len() && 0 <= y < b.len() && x != y implies b[x].0 != b[y].0 by {
                        if x < before.len() && y < before.len() {
                            assert(b[x] == before[x] && b[y] == before[y]);
                        } else if x < before.len() {
                            let z = choose|z: int| 0 <= z < t && before[x] == a[z];
                            assert(b[x] == a[z] && b[y] == a[t as int]);
                        } else if y < before.len() {
                            let z = choose|z: int| 0 <= z < t && before[y] == a[z];
                            assert(b[y] == a[z] && b[x] == a[t as int]);
                        }
                    }
                }
            }
            t += 1;
        }
        assert(a.take(n as int) =~= a);
    }

    /// Queue a job.
    pub fn enqueue_job(&mut self, id: JobId, job: J)
        ensures
            final(self).pending@ == old(self).pending@.push((id, job)),
            final(self).assigned@ == old(self).assigned@,
            final(self).completed_jobs == old(self).completed_jobs,
            final(self).total_jobs == old(self).total_jobs,
    {
        self.pending.push((id, job));
    }

    /// The statistics: jobs created, jobs waiting or out, jobs completed.
    pub fn get_stats(&self) -> (r: JobStats)
        requires
            self.pending@.len() + self.assigned@.len() <= usize::MAX,
        ensures
            r == (JobStats {
                total_jobs: self.total_jobs,
                pending_jobs: (self.pending@.len() + self.assigned@.len()) as usize,
                completed_jobs: self.completed_jobs,
            }),
    {
        JobStats {
            total_jobs: self.total_jobs,
            pending_jobs: self.pending.len() + self.assigned.len(),
            completed_jobs: self.completed_jobs,
        }
    }
}

} // verus!
