//! Background jobs. The job table is generic in the handle of the running
//! process, which the caller owns and polls.
use vstd::prelude::*;

use crate::text::{copy_string, decimal, decimal_text};

verus! {

/// A background job: its number, the program it runs, and the process handle.
pub struct Job<C> {
    pub id: usize,
    pub name: String,
    pub child: C,
}

/// The background jobs, numbered from 1 in the order they started.
pub struct JobManager<C> {
    pub jobs: Vec<Job<C>>,
    next_id: usize,
}

/// The jobs whose flag is set, in their order.
pub open spec fn kept<C>(jobs: Seq<Job<C>>, running: Seq<bool>) -> Seq<Job<C>>
    decreases jobs.len(),
{
    if jobs.len() == 0 || running.len() == 0 {
        Seq::empty()
    } else {
        let rest = kept(jobs.drop_last(), running.drop_last());
        if running.last() {
            rest.push(jobs.last())
        } else {
            rest
        }
    }
}

impl<C> JobManager<C> {
    /// The number the next job gets.
    pub closed spec fn next(&self) -> usize {
        self.next_id
    }

    /// The jobs, oldest first.
    pub closed spec fn job_seq(&self) -> Seq<Job<C>> {
        self.jobs@
    }

    /// Job numbers increase along the list and stay below the next number,
    /// which is at least 1.
    pub closed spec fn wf(&self) -> bool {
        &&& self.next() >= 1
        &&& forall|i: int, j: int|
            0 <= i < j < self.jobs@.len() ==> #[trigger] self.jobs@[i].id < #[trigger] self.jobs@[j].id
        &&& forall|i: int| 0 <= i < self.jobs@.len() ==> 1 <= #[trigger] self.jobs@[i].id < self.next()
    }

    /// No jobs; the first gets number 1.
    pub fn new() -> (r: Self)
        ensures
            r.wf(),
            r.job_seq().len() == 0,
            r.next() == 1,
    {
        Self { jobs: Vec::new(), next_id: 1 }
    }

    /// The number the next job gets.
    pub fn next_id(&self) -> (r: usize)
        ensures
            r == self.next(),
    {
        self.next_id
    }

    /// Adds a job under the next number and returns that number.
    pub fn add(&mut self, name: String, child: C) -> (id: usize)
        requires
            old(self).wf(),
            old(self).next() < usize::MAX,
        ensures
            final(self).wf(),
            id == old(self).next(),
            final(self).next() == id + 1,
            final(self).job_seq() == old(self).job_seq().push(Job { id, name, child }),
    {
        let id = self.next_id;
        self.next_id = self.next_id + 1;
        self.jobs.push(Job { id, name, child });
        id
    }

    /// Keeps the jobs still running (`running[i]` for the `i`-th job) and
    /// drops the others.
    pub fn retain_running(&mut self, running: &Vec<bool>)
        requires
            old(self).wf(),
            running@.len() == old(self).job_seq().len(),
        ensures
            final(self).wf(),
            final(self).next() == old(self).next(),
            final(self).job_seq() == kept(old(self).job_seq(), running@),
    {
        let ghost orig = self.jobs@;
        let mut rest: Vec<Job<C>> = Vec::new();
        std::mem::swap(&mut rest, &mut self.jobs);
        let mut kept_jobs: Vec<Job<C>> = Vec::new();
        let mut i: usize = 0;
        assert(orig.skip(0) =~= orig);
        assert(orig.take(0) =~= Seq::<Job<C>>::empty());
        assert(orig.len() == rest.len());
        while rest.len() > 0
            invariant
                orig.len() <= usize::MAX,
                i + rest@.len() == orig.len(),
                running@.len() == orig.len(),
                rest@ == orig.skip(i as int),
                kept_jobs@ == kept(orig.take(i as int), running@.take(i as int)),
                forall|a: int, b: int|
                    0 <= a < b < kept_jobs@.len() ==> #[trigger] kept_jobs@[a].id
                        < #[trigger] kept_jobs@[b].id,
                forall|a: int| 0 <= a < kept_jobs@.len() ==> exists|b: int|
                    0 <= b < i && #[trigger] kept_jobs@[a].id == orig[b].id,
                forall|a: int, b: int| 0 <= a < b < orig.len() ==> #[trigger] orig[a].id < #[trigger] orig[b].id,
                self.next() == old(self).next(),
                forall|a: int| 0 <= a < orig.len() ==> 1 <= #[trigger] orig[a].id < self.next(),
                self.next() >= 1,
            decreases rest.len(),
        {
            let job = rest.remove(0);
            assert(orig.take(i + 1).drop_last() =~= orig.take(i as int));
            assert(running@.take(i + 1).drop_last() =~= running@.take(i as int));
            assert(orig.skip(i + 1) =~= orig.skip(i as int).drop_first());
            if running[i] {
                let ghost before = kept_jobs@;
                proof {
                    assert forall|a: int| 0 <= a < before.len() implies before[a].id < job.id by {
                        let b = choose|b: int| 0 <= b < i && #[trigger] before[a].id == orig[b].id;
                        assert(orig[b].id < orig[i as int].id);
                    }
                }
                kept_jobs.push(job);
            }
            i = i + 1;
        }
        assert(orig.take(i as int) =~= orig);
        assert(running@.take(i as int) =~= running@);
        self.jobs = kept_jobs;
        assert forall|a: int| 0 <= a < self.jobs@.len() implies 1 <= #[trigger] self.jobs@[a].id
            < self.next() by {
            let b = choose|b: int| 0 <= b < i && #[trigger] self.jobs@[a].id == orig[b].id;
        }
    }
}

/// The line that lists a running job: `[id] Running`, a tab, two tabs, a
/// space and the program.
pub open spec fn running_line(id: nat, name: Seq<char>) -> Seq<char> {
    seq!['['] + decimal(id) + "] Running \t\t "@ + name
}

impl<C> JobManager<C> {
    /// The lines that `jobs` writes: a note when there are none, else one
    /// line per job, oldest first.
    pub fn listing(&self) -> (r: Vec<String>)
        ensures
            self.job_seq().len() == 0 ==> r@.len() == 1 && r@[0]@ == "No active background jobs."@,
            self.job_seq().len() > 0 ==> r@.len() == self.job_seq().len() && forall|i: int|
                0 <= i < r@.len() ==> #[trigger] r@[i]@ == running_line(
                    self.job_seq()[i].id as nat,
                    self.job_seq()[i].name@,
                ),
    {
        let mut out: Vec<String> = Vec::new();
        if self.jobs.len() == 0 {
            out.push(copy_string("No active background jobs."));
            return out;
        }
        let mut i: usize = 0;
        while i < self.jobs.len()
            invariant
                i <= self.jobs@.len(),
                out@.len() == i,
                forall|k: int|
                    0 <= k < i ==> #[trigger] out@[k]@ == running_line(
                        self.jobs@[k].id as nat,
                        self.jobs@[k].name@,
                    ),
            decreases self.jobs.len() - i,
        {
            let mut line = copy_string("[");
            let n = decimal_text(self.jobs[i].id);
            line.append(n.as_str());
            line.append("] Running \t\t ");
            line.append(self.jobs[i].name.as_str());
            proof {
                reveal_strlit("[");
            }
            out.push(line);
            i = i + 1;
        }
        out
    }
}

/// Job numbers are distinct: they increase from the oldest job to the
/// newest, and every one is below the number the next job gets.
pub proof fn law_job_numbers_increase<C>(jm: &JobManager<C>)
    requires
        jm.wf(),
    ensures
        forall|i: int, j: int|
            0 <= i < j < jm.job_seq().len() ==> #[trigger] jm.job_seq()[i].id
                < #[trigger] jm.job_seq()[j].id,
        forall|i: int| 0 <= i < jm.job_seq().len() ==> #[trigger] jm.job_seq()[i].id < jm.next(),
{
}

} // verus!
