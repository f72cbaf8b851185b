//! The pipeline's decision logic: what the producer does with each line it
//! reads, what a worker does with each queue event, how the whole input
//! maps to the output lines, and the worker-pool occupancy bound.
//!
//! The surrounding plumbing — reading lines, the delivery channel, task
//! spawning, waiting out the rate limiter, printing — performs exactly the
//! actions these functions decide.

use vstd::prelude::*;
use crate::normalize::{normalized_line, psl_parts, Normalizer};

verus! {

/// One unit of work: the host text of one input line. The host is absent
/// only in a job that was never filled by the producer; the producer always
/// fills it.
#[derive(Clone, Debug)]
pub struct Job {
    /// The host to normalize.
    pub host: Option<String>,
}

/// What the producer sees for one read attempt: a line, a failed read, or
/// the end of input.
pub enum LineEvent {
    /// A line was read.
    Line(String),
    /// The read failed; the line is lost.
    ReadError,
    /// Input is exhausted.
    End,
}

/// What the producer does in response: enqueue a job (after an admission
/// from the rate limiter), skip to the next line, or close the queue.
pub enum ProducerAction {
    /// Admit one job and enqueue it.
    Enqueue(Job),
    /// Drop this line and continue reading.
    Skip,
    /// Stop reading and close the queue.
    Close,
}

/// The producer's decision for one read attempt: each non-empty line
/// becomes exactly one job carrying that line as its host; an empty line
/// and a failed read are skipped; end of input closes the queue.
pub fn producer_step(ev: LineEvent) -> (a: ProducerAction)
    ensures
        match ev {
            LineEvent::Line(line) => {
                if line@.len() == 0 {
                    a is Skip
                } else {
                    a matches ProducerAction::Enqueue(j) && j.host matches Some(h) && h@ == line@
                }
            },
            LineEvent::ReadError => a is Skip,
            LineEvent::End => a is Close,
        },
{
    match ev {
        LineEvent::Line(line) => {
            if line.as_str().is_empty() {
                ProducerAction::Skip
            } else {
                ProducerAction::Enqueue(Job { host: Some(line) })
            }
        },
        LineEvent::ReadError => ProducerAction::Skip,
        LineEvent::End => ProducerAction::Close,
    }
}

/// What a worker sees for one receive attempt: a job, or the
/// closed-and-drained signal.
pub enum WorkerEvent {
    /// A job was delivered to this worker.
    Received(Job),
    /// The queue is closed and drained.
    Closed,
}

/// What the worker does in response: emit one output line, silently skip
/// the job, or exit its loop.
pub enum WorkerAction {
    /// Hand one whole output line to the sink.
    Emit(String),
    /// Drop the job without output and continue.
    Skip,
    /// Leave the loop; the pipeline is draining down.
    Exit,
}

/// A worker's decision for one receive attempt: a received job is
/// normalized, emitting exactly the line its host owes or nothing; the
/// closed signal ends the loop.
pub fn worker_step(n: &Normalizer, ev: WorkerEvent) -> (a: WorkerAction)
    requires
        ev matches WorkerEvent::Received(j) ==> j.host is Some,
    ensures
        match ev {
            WorkerEvent::Received(j) => match a {
                WorkerAction::Emit(line) => normalized_line(n.parts(j.host->0@)) == Some(line@),
                WorkerAction::Skip => normalized_line(n.parts(j.host->0@)) is None,
                WorkerAction::Exit => false,
            },
            WorkerEvent::Closed => a is Exit,
        },
{
    match ev {
        WorkerEvent::Received(j) => {
            let host = j.host.unwrap();
            match n.process_host(host.as_str()) {
                Some(line) => WorkerAction::Emit(line),
                None => WorkerAction::Skip,
            }
        },
        WorkerEvent::Closed => WorkerAction::Exit,
    }
}

/// The output lines owed for a sequence of input hosts, in input order:
/// for each host whose domain and suffix resolve, exactly one line
/// `domain.suffix`; for every other host, none.
pub open spec fn expected_outputs(tlds: Set<Seq<char>>, hosts: Seq<Seq<char>>) -> Seq<Seq<char>>
    decreases hosts.len(),
{
    if hosts.len() == 0 {
        Seq::empty()
    } else {
        expected_outputs(tlds, hosts.drop_last()) + match normalized_line(
            psl_parts(tlds, hosts.last()),
        ) {
            Some(line) => seq![line],
            None => Seq::empty(),
        }
    }
}

/// A host resolves under the given suffix data: normalization yields both
/// a domain and a suffix, so one output line is owed.
pub open spec fn resolves(tlds: Set<Seq<char>>, host: Seq<char>) -> bool {
    normalized_line(psl_parts(tlds, host)) is Some
}

/// One output line per resolvable host, none per unresolvable host: the
/// owed output is exactly the resolvable hosts, in order, each mapped to
/// its normalized line.
pub proof fn lemma_outputs_are_resolved_hosts(tlds: Set<Seq<char>>, hosts: Seq<Seq<char>>)
    ensures
        expected_outputs(tlds, hosts) == hosts.filter(|h: Seq<char>| resolves(tlds, h)).map_values(
            |h: Seq<char>| normalized_line(psl_parts(tlds, h))->0,
        ),
    decreases hosts.len(),
{
    reveal(Seq::filter);
    let pred = |h: Seq<char>| resolves(tlds, h);
    let f = |h: Seq<char>| normalized_line(psl_parts(tlds, h))->0;
    if hosts.len() == 0 {
        assert(expected_outputs(tlds, hosts) =~= hosts.filter(pred).map_values(f));
    } else {
        lemma_outputs_are_resolved_hosts(tlds, hosts.drop_last());
        let prefix = hosts.drop_last().filter(pred);
        if pred(hosts.last()) {
            assert(prefix.push(hosts.last()).map_values(f) =~= prefix.map_values(f).push(
                f(hosts.last()),
            ));
            assert(expected_outputs(tlds, hosts) =~= hosts.filter(pred).map_values(f));
        } else {
            assert(expected_outputs(tlds, hosts) =~= hosts.filter(pred).map_values(f));
        }
    }
}

/// Never more output lines than input lines.
pub proof fn lemma_output_count_bounded(tlds: Set<Seq<char>>, hosts: Seq<Seq<char>>)
    ensures
        expected_outputs(tlds, hosts).len() <= hosts.len(),
    decreases hosts.len(),
{
    if hosts.len() > 0 {
        lemma_output_count_bounded(tlds, hosts.drop_last());
    }
}

/// The views of a batch of lines.
pub open spec fn texts_of(lines: Seq<String>) -> Seq<Seq<char>> {
    lines.map_values(|s: String| s@)
}

/// Normalizes a whole batch of hosts in order, collecting exactly the owed
/// output lines: one line per resolvable host, none per unresolvable one,
/// never more lines than hosts.
pub fn process_batch(n: &Normalizer, hosts: &Vec<String>) -> (out: Vec<String>)
    ensures
        texts_of(out@) == expected_outputs(n.suffixes(), texts_of(hosts@)),
        out@.len() <= hosts@.len(),
{
    let mut out: Vec<String> = Vec::new();
    let mut i: usize = 0;
    proof {
        assert(texts_of(hosts@).take(0) =~= Seq::<Seq<char>>::empty());
        assert(texts_of(out@) =~= Seq::<Seq<char>>::empty());
    }
    while i < hosts.len()
        invariant
            0 <= i <= hosts@.len(),
            texts_of(out@) == expected_outputs(n.suffixes(), texts_of(hosts@).take(i as int)),
            out@.len() <= i,
        decreases hosts@.len() - i,
    {
        let ghost prev_out = out@;
        let ghost all = texts_of(hosts@);
        match n.process_host(hosts[i].as_str()) {
            Some(line) => {
                out.push(line);
            },
            None => {},
        }
        proof {
            assert(all.take(i + 1).drop_last() =~= all.take(i as int));
            assert(all.take(i + 1).last() == hosts@[i as int]@);
            assert(expected_outputs(n.suffixes(), all.take(i + 1)) == expected_outputs(
                n.suffixes(),
                all.take(i as int),
            ) + match normalized_line(n.parts(hosts@[i as int]@)) {
                Some(line) => seq![line],
                None => Seq::<Seq<char>>::empty(),
            });
            assert(texts_of(out@) =~= expected_outputs(n.suffixes(), all.take(i + 1)));
        }
        i = i + 1;
    }
    proof {
        assert(texts_of(hosts@).take(i as int) =~= texts_of(hosts@));
    }
    out
}

/// Worker-pool occupancy: how many of the pool's `concurrency` workers are
/// normalizing a job at this instant. A job can only be taken by an idle
/// worker, so occupancy never exceeds `concurrency`.
pub struct PoolState {
    /// The number of workers the pool was spawned with.
    pub concurrency: u32,
    /// The number of workers currently normalizing a job.
    pub busy: u32,
}

impl PoolState {
    /// Occupancy never exceeds the worker count.
    pub open spec fn wf(self) -> bool {
        self.busy <= self.concurrency
    }

    /// A freshly spawned pool: all workers idle.
    pub fn spawn(concurrency: u32) -> (p: PoolState)
        ensures
            p.wf(),
            p.concurrency == concurrency,
            p.busy == 0,
    {
        PoolState { concurrency, busy: 0 }
    }

    /// A worker takes a job exactly when one is idle; occupancy grows by
    /// one and stays bounded by the worker count.
    pub fn start_job(&mut self) -> (started: bool)
        requires
            old(self).wf(),
        ensures
            final(self).wf(),
            final(self).concurrency == old(self).concurrency,
            started == (old(self).busy < old(self).concurrency),
            started ==> final(self).busy == old(self).busy + 1,
            !started ==> final(self).busy == old(self).busy,
    {
        if self.busy < self.concurrency {
            self.busy = self.busy + 1;
            true
        } else {
            false
        }
    }

    /// A worker finishes its job; occupancy shrinks by one.
    pub fn finish_job(&mut self)
        requires
            old(self).wf(),
            old(self).busy >= 1,
        ensures
            final(self).wf(),
            final(self).concurrency == old(self).concurrency,
            final(self).busy == old(self).busy - 1,
    {
        self.busy = self.busy - 1;
    }
}

/// Occupancy after a trace of pool events (`true` = a worker takes a job,
/// `false` = a worker finishes one), mirroring the transitions above.
pub open spec fn pool_busy_after(concurrency: int, busy: int, steps: Seq<bool>) -> int
    decreases steps.len(),
{
    if steps.len() == 0 {
        busy
    } else {
        let b = pool_busy_after(concurrency, busy, steps.drop_last());
        if steps.last() {
            if b < concurrency {
                b + 1
            } else {
                b
            }
        } else {
            if b >= 1 {
                b - 1
            } else {
                b
            }
        }
    }
}

/// At most `concurrency` jobs are under normalization at any instant:
/// along every trace of take/finish events, occupancy stays between zero
/// and the worker count.
pub proof fn lemma_pool_occupancy_bounded(concurrency: int, busy: int, steps: Seq<bool>)
    requires
        0 <= busy <= concurrency,
    ensures
        0 <= pool_busy_after(concurrency, busy, steps) <= concurrency,
    decreases steps.len(),
{
    if steps.len() > 0 {
        lemma_pool_occupancy_bounded(concurrency, busy, steps.drop_last());
    }
}

} // verus!
