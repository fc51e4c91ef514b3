//! The concurrency scheduler's decision core. Jobs are plain ids; partitions
//! are per network domain. The operating-system threads themselves live
//! outside; what is verified here is every scheduling decision: when a job
//! may start, what harvesting a finished thread does to the pool, that the
//! per-partition bound is never exceeded, and that one failure never cancels
//! sibling work — it is only tallied into the aggregate result.
use vstd::prelude::*;

verus! {

/// A sequence with the element at `i` swap-removed: the last element takes
/// its place.
pub open spec fn swap_removed<T>(s: Seq<T>, i: int) -> Seq<T> {
    s.update(i, s.last()).drop_last()
}

/// The queued and in-flight jobs of one network domain.
pub struct DomainSched {
    pub domain: u64,
    pub queued: Vec<usize>,
    pub running: Vec<usize>,
}

/// One observed scheduling event.
#[derive(Clone, Copy, PartialEq, Eq, Structural, Debug)]
pub enum SchedStep {
    /// Fill the partition up to its limit from the queue.
    Dispatch,
    /// The in-flight thread at `pos` finished, successfully or not.
    Finish { pos: usize, ok: bool },
}

/// What one run of the scheduling loop did.
#[derive(Clone, Copy, PartialEq, Eq, Structural, Debug)]
pub struct DrainOutcome {
    /// Jobs moved from the queue into flight.
    pub dispatched: usize,
    /// Finished threads joined and removed.
    pub harvested: usize,
    /// Harvested threads whose job failed.
    pub failures: usize,
    /// The most jobs ever simultaneously in flight.
    pub peak: usize,
}

/// What dispatching does to a partition: jobs move from the back of the
/// queue into flight until the queue is empty or the limit is reached.
pub open spec fn dispatch_fold(q: Seq<usize>, r: Seq<usize>, limit: int) -> (Seq<usize>, Seq<
    usize,
>)
    decreases q.len(),
{
    if q.len() == 0 || r.len() >= limit {
        (q, r)
    } else {
        dispatch_fold(q.drop_last(), r.push(q.last()), limit)
    }
}

/// The scheduler's full state between steps: the partition's lists and the
/// run's counters.
pub ghost struct SchedFoldV {
    pub queued: Seq<usize>,
    pub running: Seq<usize>,
    pub dispatched: int,
    pub harvested: int,
    pub failures: int,
    pub peak: int,
}

/// The state a partition's scheduling starts from.
pub open spec fn sched_init(d: DomainSched) -> SchedFoldV {
    SchedFoldV {
        queued: d.queued@,
        running: d.running@,
        dispatched: 0,
        harvested: 0,
        failures: 0,
        peak: d.running@.len() as int,
    }
}

/// What one observed event does to the scheduler's state: a dispatch fills
/// the partition from the queue and counts what moved; a finish joins and
/// swap-removes the named thread and tallies its result; a finish naming no
/// live slot changes nothing.
pub open spec fn sched_step_fold(st: SchedFoldV, step: SchedStep, limit: int) -> SchedFoldV {
    match step {
        SchedStep::Dispatch => {
            let moved = dispatch_fold(st.queued, st.running, limit);
            SchedFoldV {
                queued: moved.0,
                running: moved.1,
                dispatched: st.dispatched + (moved.1.len() - st.running.len()),
                peak: if st.peak >= moved.1.len() {
                    st.peak
                } else {
                    moved.1.len() as int
                },
                ..st
            }
        },
        SchedStep::Finish { pos, ok } => if pos < st.running.len() {
            SchedFoldV {
                running: swap_removed(st.running, pos as int),
                harvested: st.harvested + 1,
                failures: st.failures + (if ok {
                    0int
                } else {
                    1int
                }),
                ..st
            }
        } else {
            st
        },
    }
}

/// The scheduler's state after the observed events, in order.
pub open spec fn sched_fold(st: SchedFoldV, steps: Seq<SchedStep>, limit: int) -> SchedFoldV
    decreases steps.len(),
{
    if steps.len() == 0 {
        st
    } else {
        sched_step_fold(sched_fold(st, steps.drop_last(), limit), steps.last(), limit)
    }
}

/// Moves jobs from the back of the queue into flight until the queue is
/// empty or the partition is at its limit. Never exceeds the limit.
pub fn dispatch_domain(d: &mut DomainSched, limit: usize) -> (spawned: Vec<usize>)
    requires
        old(d).running@.len() <= limit,
    ensures
        final(d).domain == old(d).domain,
        final(d).running@.len() <= limit,
        final(d).running@ == old(d).running@ + spawned@,
        old(d).queued@ == final(d).queued@ + spawned@.reverse(),
        final(d).queued@.len() == 0 || final(d).running@.len() == limit,
        (final(d).queued@, final(d).running@) == dispatch_fold(
            old(d).queued@,
            old(d).running@,
            limit as int,
        ),
{
    let mut spawned: Vec<usize> = Vec::new();
    proof {
        assert(d.running@ =~= old(d).running@ + spawned@);
        assert(old(d).queued@ =~= d.queued@ + spawned@.reverse());
    }
    while d.queued.len() > 0 && d.running.len() < limit
        invariant
            d.domain == old(d).domain,
            d.running@.len() <= limit,
            d.running@ == old(d).running@ + spawned@,
            old(d).queued@ == d.queued@ + spawned@.reverse(),
            dispatch_fold(old(d).queued@, old(d).running@, limit as int) == dispatch_fold(
                d.queued@,
                d.running@,
                limit as int,
            ),
        decreases d.queued@.len(),
    {
        let ghost qpre = d.queued@;
        let ghost rpre = d.running@;
        let ghost spre = spawned@;
        let ql = d.queued.len();
        let job = d.queued[ql - 1];
        d.queued.truncate(ql - 1);
        d.running.push(job);
        spawned.push(job);
        proof {
            assert(qpre =~= d.queued@.push(job));
            assert(spawned@.reverse() =~= seq![job] + spre.reverse());
            assert(d.queued@ + spawned@.reverse() =~= qpre + spre.reverse());
            assert(qpre.drop_last() =~= d.queued@);
            assert(qpre.last() == job);
            assert(dispatch_fold(qpre, rpre, limit as int) == dispatch_fold(
                d.queued@,
                d.running@,
                limit as int,
            ));
        }
    }
    proof {
        assert(dispatch_fold(d.queued@, d.running@, limit as int) == (d.queued@, d.running@));
    }
    spawned
}

/// Harvests the in-flight thread at `pos`: it is joined and swap-removed;
/// nothing else changes, in particular no sibling job is cancelled.
pub fn harvest_one(d: &mut DomainSched, pos: usize)
    requires
        pos < old(d).running@.len(),
    ensures
        final(d).domain == old(d).domain,
        final(d).queued@ == old(d).queued@,
        final(d).running@ == swap_removed(old(d).running@, pos as int),
{
    d.running.swap_remove(pos);
}

/// Runs one partition's scheduling loop over the observed events. The
/// outcome records that the in-flight count never passed the limit (its
/// peak), that every dispatched job came from the queue, and how many
/// harvested jobs failed; a failure only counts toward the aggregate, it
/// stops nothing.
pub fn run_domain_schedule(d: &mut DomainSched, limit: usize, steps: &Vec<SchedStep>) -> (r:
    DrainOutcome)
    requires
        old(d).running@.len() <= limit,
        old(d).queued@.len() + old(d).running@.len() <= usize::MAX,
    ensures
        final(d).domain == old(d).domain,
        final(d).running@.len() <= limit,
        r.peak <= limit,
        final(d).running@.len() <= r.peak,
        r.failures <= r.harvested,
        r.dispatched == old(d).queued@.len() - final(d).queued@.len(),
        old(d).queued@.len() + old(d).running@.len() == final(d).queued@.len()
            + final(d).running@.len() + r.harvested,
        ({
            let f = sched_fold(sched_init(*old(d)), steps@, limit as int);
            &&& final(d).queued@ == f.queued
            &&& final(d).running@ == f.running
            &&& r.dispatched == f.dispatched
            &&& r.harvested == f.harvested
            &&& r.failures == f.failures
            &&& r.peak == f.peak
        }),
{
    let q0: usize = d.queued.len();
    let mut out = DrainOutcome { dispatched: 0, harvested: 0, failures: 0, peak: 0 };
    if d.running.len() > out.peak {
        out.peak = d.running.len();
    }
    let mut i: usize = 0;
    proof {
        assert(steps@.subrange(0, 0) =~= Seq::<SchedStep>::empty());
    }
    while i < steps.len()
        invariant
            i <= steps.len(),
            q0 == old(d).queued@.len(),
            old(d).queued@.len() + old(d).running@.len() <= usize::MAX,
            d.domain == old(d).domain,
            d.running@.len() <= limit,
            out.peak <= limit,
            d.running@.len() <= out.peak,
            out.failures <= out.harvested,
            out.dispatched == old(d).queued@.len() - d.queued@.len(),
            d.queued@.len() <= old(d).queued@.len(),
            old(d).queued@.len() + old(d).running@.len() == d.queued@.len() + d.running@.len()
                + out.harvested,
            ({
                let f = sched_fold(sched_init(*old(d)), steps@.subrange(0, i as int), limit as int);
                &&& d.queued@ == f.queued
                &&& d.running@ == f.running
                &&& out.dispatched == f.dispatched
                &&& out.harvested == f.harvested
                &&& out.failures == f.failures
                &&& out.peak == f.peak
            }),
        decreases steps.len() - i,
    {
        let ghost fpre = sched_fold(sched_init(*old(d)), steps@.subrange(0, i as int), limit as int);
        let ghost post = steps@.subrange(0, i + 1 as int);
        proof {
            assert(post.drop_last() =~= steps@.subrange(0, i as int));
            assert(post.last() == steps@[i as int]);
        }
        match steps[i] {
            SchedStep::Dispatch => {
                let spawned = dispatch_domain(d, limit);
                out.dispatched += spawned.len();
            },
            SchedStep::Finish { pos, ok } => {
                if pos < d.running.len() {
                    harvest_one(d, pos);
                    out.harvested += 1;
                    if !ok {
                        out.failures += 1;
                    }
                }
            },
        }
        if d.running.len() > out.peak {
            out.peak = d.running.len();
        }
        proof {
            assert(sched_fold(sched_init(*old(d)), post, limit as int) == sched_step_fold(
                fpre,
                steps@[i as int],
                limit as int,
            ));
        }
        i += 1;
    }
    proof {
        assert(steps@.subrange(0, steps@.len() as int) =~= steps@);
    }
    out
}

/// Runs every partition's scheduling loop over its observed events: the
/// per-domain bound holds in each partition independently; the aggregate
/// fails exactly when some harvested job failed, and only after every
/// partition has been driven — no failure stops a sibling partition.
pub fn cache_sources_mt(pools: &mut Vec<DomainSched>, limit: usize, steps: &Vec<Vec<SchedStep>>)
    -> (r: (Vec<DrainOutcome>, Result<(), ()>))
    requires
        old(pools)@.len() == steps@.len(),
        forall|i: int|
            0 <= i < old(pools)@.len() ==> (#[trigger] old(pools)@[i]).running@.len() == 0,
        forall|i: int|
            0 <= i < old(pools)@.len() ==> (#[trigger] old(pools)@[i]).queued@.len()
                <= usize::MAX,
    ensures
        r.0@.len() == old(pools)@.len(),
        final(pools)@.len() == old(pools)@.len(),
        forall|i: int| 0 <= i < r.0@.len() ==> (#[trigger] r.0@[i]).peak <= limit,
        forall|i: int|
            0 <= i < final(pools)@.len() ==> (#[trigger] final(pools)@[i]).running@.len()
                <= limit,
        forall|i: int|
            0 <= i < r.0@.len() ==> {
                let f = sched_fold(sched_init(old(pools)@[i]), steps@[i]@, limit as int);
                &&& (#[trigger] final(pools)@[i]).queued@ == f.queued
                &&& final(pools)@[i].running@ == f.running
                &&& r.0@[i].dispatched == f.dispatched
                &&& r.0@[i].harvested == f.harvested
                &&& r.0@[i].failures == f.failures
                &&& r.0@[i].peak == f.peak
            },
        forall|i: int|
            0 <= i < r.0@.len() ==> {
                &&& (#[trigger] r.0@[i]).dispatched == old(pools)@[i].queued@.len()
                    - final(pools)@[i].queued@.len()
                &&& old(pools)@[i].queued@.len() + old(pools)@[i].running@.len()
                    == final(pools)@[i].queued@.len() + final(pools)@[i].running@.len()
                    + r.0@[i].harvested
            },
        r.1 is Ok <==> forall|i: int| 0 <= i < r.0@.len() ==> (#[trigger] r.0@[i]).failures == 0,
{
    let mut outcomes: Vec<DrainOutcome> = Vec::new();
    let mut bad = false;
    let mut i: usize = 0;
    while i < pools.len()
        invariant
            i <= pools@.len(),
            pools@.len() == old(pools)@.len(),
            steps@.len() == old(pools)@.len(),
            outcomes@.len() == i,
            forall|j: int|
                0 <= j < old(pools)@.len() ==> (#[trigger] old(pools)@[j]).running@.len() == 0
                    && old(pools)@[j].queued@.len() <= usize::MAX,
            forall|j: int| i <= j < pools@.len() ==> #[trigger] pools@[j] == old(pools)@[j],
            forall|j: int| 0 <= j < i ==> (#[trigger] outcomes@[j]).peak <= limit,
            forall|j: int| 0 <= j < i ==> (#[trigger] pools@[j]).running@.len() <= limit,
            forall|j: int|
                0 <= j < i ==> {
                    let f = sched_fold(sched_init(old(pools)@[j]), steps@[j]@, limit as int);
                    &&& (#[trigger] pools@[j]).queued@ == f.queued
                    &&& pools@[j].running@ == f.running
                    &&& outcomes@[j].dispatched == f.dispatched
                    &&& outcomes@[j].harvested == f.harvested
                    &&& outcomes@[j].failures == f.failures
                    &&& outcomes@[j].peak == f.peak
                },
            forall|j: int|
                0 <= j < i ==> {
                    &&& (#[trigger] outcomes@[j]).dispatched == old(pools)@[j].queued@.len()
                        - pools@[j].queued@.len()
                    &&& old(pools)@[j].queued@.len() + old(pools)@[j].running@.len()
                        == pools@[j].queued@.len() + pools@[j].running@.len()
                        + outcomes@[j].harvested
                },
        decreases pools.len() - i,
    {
        let ghost before = pools@;
        proof {
            assert(pools@[i as int] == old(pools)@[i as int]);
        }
        let mut d = pools.remove(i);
        let out = run_domain_schedule(&mut d, limit, &steps[i]);
        let ghost dv = d;
        pools.insert(i, d);
        proof {
            assert(pools@ =~= before.update(i as int, dv));
            assert(forall|j: int|
                0 <= j < pools@.len() && j != i ==> #[trigger] pools@[j] == before[j]);
        }
        let ghost ov = outcomes@;
        outcomes.push(out);
        proof {
            assert(outcomes@ =~= ov.push(out));
            assert(outcomes@[i as int] == out);
            assert(forall|j: int| 0 <= j < i ==> #[trigger] outcomes@[j] == ov[j]);
        }
        i += 1;
    }
    let mut k: usize = 0;
    while k < outcomes.len()
        invariant
            k <= outcomes@.len(),
            !bad <==> forall|j: int| 0 <= j < k ==> (#[trigger] outcomes@[j]).failures == 0,
        decreases outcomes.len() - k,
    {
        if outcomes[k].failures > 0 {
            bad = true;
        }
        k += 1;
    }
    if bad {
        (outcomes, Err(()))
    } else {
        (outcomes, Ok(()))
    }
}

/// Decision core of the flat bounded pool: below the limit a job starts at
/// once; at the limit, the finished thread the poll found is harvested first
/// and its result becomes this call's result.
pub fn wait_if_too_busy(
    threads: &mut Vec<usize>,
    max_threads: usize,
    fin: Option<(usize, bool)>,
) -> (r: Result<(), ()>)
    requires
        old(threads)@.len() >= max_threads ==> (fin matches Some(f) && f.0 < old(
            threads,
        )@.len()),
    ensures
        old(threads)@.len() < max_threads ==> final(threads)@ == old(threads)@ && r is Ok,
        old(threads)@.len() >= max_threads ==> (fin matches Some(f) ==> {
            &&& final(threads)@ == swap_removed(old(threads)@, f.0 as int)
            &&& (r is Ok <==> f.1)
        }),
{
    if threads.len() >= max_threads {
        match fin {
            Option::Some((pos, ok)) => {
                threads.swap_remove(pos);
                if ok {
                    Ok(())
                } else {
                    Err(())
                }
            },
            Option::None => {
                proof {
                    assert(false);
                }
                Err(())
            },
        }
    } else {
        Ok(())
    }
}

/// The poll positions are in range: each names an in-flight slot at the
/// pool's size at its turn, one smaller after every harvest.
pub open spec fn positions_valid(len: int, fins: Seq<(usize, bool)>) -> bool
    decreases fins.len(),
{
    if fins.len() == 0 {
        true
    } else {
        fins[0].0 < len && positions_valid(len - 1, fins.skip(1))
    }
}

/// How many of the harvested jobs failed.
pub open spec fn failure_count(fins: Seq<(usize, bool)>) -> int
    decreases fins.len(),
{
    if fins.len() == 0 {
        0
    } else {
        failure_count(fins.drop_last()) + (if fins.last().1 {
            0int
        } else {
            1int
        })
    }
}

/// Harvests, in order, the finished threads the poll found in one pool:
/// each is joined and swap-removed; nothing else changes.
pub fn harvest_finished(d: &mut DomainSched, fins: &Vec<(usize, bool)>) -> (bad: usize)
    requires
        positions_valid(old(d).running@.len() as int, fins@),
    ensures
        final(d).domain == old(d).domain,
        final(d).queued@ == old(d).queued@,
        final(d).running@.len() == old(d).running@.len() - fins@.len(),
        bad == failure_count(fins@),
{
    let mut bad: usize = 0;
    let mut k: usize = 0;
    proof {
        assert(fins@.skip(0) =~= fins@);
        assert(fins@.subrange(0, 0) =~= Seq::<(usize, bool)>::empty());
    }
    while k < fins.len()
        invariant
            k <= fins@.len(),
            d.domain == old(d).domain,
            d.queued@ == old(d).queued@,
            d.running@.len() == old(d).running@.len() - k,
            positions_valid(d.running@.len() as int, fins@.skip(k as int)),
            bad == failure_count(fins@.subrange(0, k as int)),
            bad <= k,
        decreases fins.len() - k,
    {
        proof {
            assert(fins@.skip(k as int)[0] == fins@[k as int]);
            assert(fins@.skip(k as int).skip(1) =~= fins@.skip(k + 1 as int));
            assert(fins@.subrange(0, k + 1 as int).drop_last() =~= fins@.subrange(0, k as int));
            assert(fins@.subrange(0, k + 1 as int).last() == fins@[k as int]);
        }
        let (pos, ok) = fins[k];
        harvest_one(d, pos);
        if !ok {
            bad += 1;
        }
        k += 1;
    }
    proof {
        assert(fins@.subrange(0, fins@.len() as int) =~= fins@);
    }
    bad
}

/// Harvests whatever the poll found finished across every partition; the
/// aggregate fails exactly when some harvested job failed, and no failure
/// cancels work elsewhere.
pub fn wait_thread_map(map: &mut Vec<DomainSched>, fins: &Vec<Vec<(usize, bool)>>) -> (r: Result<
    (),
    (),
>)
    requires
        old(map)@.len() == fins@.len(),
        forall|i: int|
            0 <= i < old(map)@.len() ==> positions_valid(
                (#[trigger] old(map)@[i]).running@.len() as int,
                fins@[i]@,
            ),
    ensures
        final(map)@.len() == old(map)@.len(),
        forall|i: int|
            0 <= i < final(map)@.len() ==> (#[trigger] final(map)@[i]).running@.len() == old(
                map,
            )@[i].running@.len() - fins@[i]@.len() && final(map)@[i].domain == old(
                map,
            )@[i].domain && final(map)@[i].queued@ == old(map)@[i].queued@,
        r is Ok <==> forall|i: int| 0 <= i < fins@.len() ==> failure_count(#[trigger] fins@[i]@)
            == 0,
{
    let mut bads: Vec<usize> = Vec::new();
    let mut i: usize = 0;
    while i < map.len()
        invariant
            i <= map@.len(),
            map@.len() == old(map)@.len(),
            fins@.len() == old(map)@.len(),
            forall|j: int|
                0 <= j < old(map)@.len() ==> positions_valid(
                    (#[trigger] old(map)@[j]).running@.len() as int,
                    fins@[j]@,
                ),
            bads@.len() == i,
            forall|j: int|
                i <= j < map@.len() ==> #[trigger] map@[j] == old(map)@[j],
            forall|j: int|
                0 <= j < i ==> (#[trigger] map@[j]).running@.len() == old(
                    map,
                )@[j].running@.len() - fins@[j]@.len() && map@[j].domain == old(map)@[j].domain
                    && map@[j].queued@ == old(map)@[j].queued@,
            forall|j: int| 0 <= j < i ==> #[trigger] bads@[j] == failure_count(fins@[j]@),
        decreases map.len() - i,
    {
        let ghost before = map@;
        proof {
            assert(map@[i as int] == old(map)@[i as int]);
        }
        let mut d = map.remove(i);
        let bad = harvest_finished(&mut d, &fins[i]);
        let ghost dv = d;
        map.insert(i, d);
        proof {
            assert(map@ =~= before.update(i as int, dv));
            assert(forall|j: int|
                0 <= j < map@.len() && j != i ==> #[trigger] map@[j] == before[j]);
        }
        let ghost bv = bads@;
        bads.push(bad);
        proof {
            assert(bads@ =~= bv.push(bad));
            assert(forall|j: int| 0 <= j < i ==> #[trigger] bads@[j] == bv[j]);
        }
        i += 1;
    }
    let mut any_bad = false;
    let mut k: usize = 0;
    while k < bads.len()
        invariant
            k <= bads@.len(),
            bads@.len() == fins@.len(),
            forall|j: int| 0 <= j < bads@.len() ==> #[trigger] bads@[j] == failure_count(fins@[j]@),
            !any_bad <==> forall|j: int| 0 <= j < k ==> failure_count(#[trigger] fins@[j]@) == 0,
        decreases bads.len() - k,
    {
        if bads[k] > 0 {
            any_bad = true;
        }
        k += 1;
    }
    if any_bad {
        Err(())
    } else {
        Ok(())
    }
}

/// Waits out every remaining thread: all are joined, none abandoned; the
/// aggregate fails exactly when some job failed, after all have finished.
pub fn wait_remaining(threads: Vec<usize>, oks: &Vec<bool>) -> (r: Result<(), ()>)
    requires
        forall|k: int| 0 <= k < threads@.len() ==> #[trigger] threads@[k] < oks@.len(),
    ensures
        r is Ok <==> forall|k: int| 0 <= k < threads@.len() ==> oks@[#[trigger] threads@[k] as int],
{
    let mut bad_threads: usize = 0;
    let mut i: usize = 0;
    while i < threads.len()
        invariant
            i <= threads@.len(),
            forall|k: int| 0 <= k < threads@.len() ==> #[trigger] threads@[k] < oks@.len(),
            bad_threads == 0 <==> forall|k: int|
                0 <= k < i ==> oks@[#[trigger] threads@[k] as int],
            bad_threads <= i,
        decreases threads.len() - i,
    {
        if !oks[threads[i]] {
            bad_threads += 1;
        }
        i += 1;
    }
    if bad_threads > 0 {
        Err(())
    } else {
        Ok(())
    }
}

} // verus!
