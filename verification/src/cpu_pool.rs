//! The encode scheduler: frames go out to a pool of workers and come back in any
//! order; the caller gets them in the order in which they were submitted.

use crossbeam_channel::{Receiver, Sender};
use std::collections::BTreeMap;
use vstd::prelude::*;

verus! {

/// `crossbeam_channel::Sender`: the sending end of a channel, carried as it is.
#[verifier::external_type_specification]
#[verifier::external_body]
#[verifier::reject_recursive_types(T)]
pub struct ExSender<T>(Sender<T>);

/// `crossbeam_channel::Receiver`: the receiving end of a channel, carried as it is.
#[verifier::external_type_specification]
#[verifier::external_body]
#[verifier::reject_recursive_types(T)]
pub struct ExReceiver<T>(Receiver<T>);

/// The sequence number `steps` after `index`; after the largest number comes zero.
pub open spec fn index_after(index: u32, steps: nat) -> u32 {
    ((index + steps) % 0x1_0000_0000) as u32
}

/// The sequence number after `index`.
pub open spec fn next_index(index: u32) -> u32 {
    index_after(index, 1)
}

/// What the scheduler holds, as plain values: the size of the pool, the number of jobs
/// that are out, the number that the next job gets, the number that is released next,
/// and the results that wait for their turn.
pub struct PoolView {
    pub max_workers: nat,
    pub busy: nat,
    pub next: u32,
    pub current: u32,
    pub ready: Map<u32, Seq<u8>>,
}

impl PoolView {
    /// Whether all workers are taken.
    pub open spec fn full(self) -> bool {
        self.busy >= self.max_workers
    }

    /// Whether a frame is taken on: it must hold data, and a worker must be free.
    pub open spec fn admits(self, data: Seq<u8>) -> bool {
        data.len() > 0 && !self.full()
    }

    /// The scheduler after a job went out.
    pub open spec fn submitted(self) -> PoolView {
        PoolView { busy: self.busy + 1, next: next_index(self.next), ..self }
    }

    /// The scheduler after the result of job `index` came back.
    pub open spec fn completed(self, index: u32, jpeg: Seq<u8>) -> PoolView {
        PoolView {
            busy: if self.busy > 0 {
                (self.busy - 1) as nat
            } else {
                0
            },
            ready: self.ready.insert(index, jpeg),
            ..self
        }
    }

    /// The scheduler after the first `upto` of the given results came back, in their order.
    pub open spec fn completed_all(self, results: Seq<(u32, Seq<u8>)>, upto: int) -> PoolView
        decreases upto,
    {
        if upto <= 0 {
            self
        } else {
            self.completed_all(results, upto - 1).completed(
                results[upto - 1].0,
                results[upto - 1].1,
            )
        }
    }

    /// The result that is released now: the one whose number is due, if it is there.
    pub open spec fn due(self) -> Option<Seq<u8>> {
        if self.ready.contains_key(self.current) {
            Some(self.ready[self.current])
        } else {
            None
        }
    }

    /// The scheduler after a release: a result that was due is gone and the next number
    /// is due; without one nothing changes.
    pub open spec fn released(self) -> PoolView {
        if self.ready.contains_key(self.current) {
            PoolView {
                ready: self.ready.remove(self.current),
                current: next_index(self.current),
                ..self
            }
        } else {
            self
        }
    }

    /// The scheduler after `count` releases.
    pub open spec fn released_times(self, count: nat) -> PoolView
        decreases count,
    {
        if count == 0 {
            self
        } else {
            self.released().released_times((count - 1) as nat)
        }
    }

    /// What `count` releases hand out, one after another.
    pub open spec fn releases(self, count: nat) -> Seq<Option<Seq<u8>>>
        decreases count,
    {
        if count == 0 {
            Seq::empty()
        } else {
            seq![self.due()] + self.released().releases((count - 1) as nat)
        }
    }
}

/// Results never change which number is due, in whatever order they come back.
pub proof fn lemma_completion_keeps_cursor(pool: PoolView, results: Seq<(u32, Seq<u8>)>, upto: int)
    requires
        0 <= upto <= results.len(),
    ensures
        pool.completed_all(results, upto).current == pool.current,
        pool.completed_all(results, upto).next == pool.next,
        pool.completed_all(results, upto).max_workers == pool.max_workers,
        pool.completed_all(results, upto).busy <= pool.busy,
        forall|k: u32|
            pool.ready.contains_key(k) ==> #[trigger] pool.completed_all(
                results,
                upto,
            ).ready.contains_key(k),
    decreases upto,
{
    if upto > 0 {
        lemma_completion_keeps_cursor(pool, results, upto - 1);
    }
}

/// Two results with different numbers may come back in either order: what waits for
/// release is the same.
pub proof fn lemma_completion_order_is_free(
    pool: PoolView,
    first: u32,
    a: Seq<u8>,
    second: u32,
    b: Seq<u8>,
)
    requires
        first != second,
    ensures
        pool.completed(first, a).completed(second, b).ready == pool.completed(
            second,
            b,
        ).completed(first, a).ready,
        pool.completed(first, a).completed(second, b).current == pool.current,
{
    assert(pool.ready.insert(first, a).insert(second, b) =~= pool.ready.insert(second, b).insert(
        first,
        a,
    ));
}

/// Results are released in the order of submission: once the results of the next
/// `count` jobs are there, in whatever order they came back, `count` releases hand
/// out exactly these results, by rising sequence number, and the number after them is
/// due.
pub proof fn lemma_release_in_submission_order(pool: PoolView, count: nat)
    requires
        count <= 0x1_0000_0000,
        forall|k: nat| k < count ==> pool.ready.contains_key(#[trigger] index_after(pool.current, k)),
    ensures
        pool.releases(count).len() == count,
        forall|k: nat|
            k < count ==> pool.releases(count)[k as int] == Some(
                pool.ready[#[trigger] index_after(pool.current, k)],
            ),
        pool.released_times(count).current == index_after(pool.current, count),
    decreases count,
{
    if count > 0 {
        let after = pool.released();
        assert(index_after(pool.current, 0) == pool.current);
        assert(pool.ready.contains_key(pool.current));
        let rest = (count - 1) as nat;
        assert forall|k: nat| k < rest implies after.ready.contains_key(
            #[trigger] index_after(after.current, k),
        ) && after.ready[index_after(after.current, k)] == pool.ready[index_after(
            pool.current,
            k + 1,
        )] by {
            assert(index_after(after.current, k) == index_after(pool.current, k + 1));
            assert(index_after(pool.current, k + 1) != pool.current);
            assert(pool.ready.contains_key(index_after(pool.current, k + 1)));
        }
        lemma_release_in_submission_order(after, rest);
        let all = pool.releases(count);
        assert(index_after(after.current, rest) == index_after(pool.current, count));
        assert forall|k: nat| k < count implies all[k as int] == Some(
            pool.ready[#[trigger] index_after(pool.current, k)],
        ) by {
            if k > 0 {
                let j = (k - 1) as nat;
                assert(all[k as int] == after.releases(rest)[j as int]);
                assert(index_after(after.current, j) == index_after(pool.current, k));
            }
        }
    }
}

/// Results with different numbers all wait for release once they have come back,
/// each under its number, in whatever order they came.
pub proof fn lemma_results_wait(pool: PoolView, results: Seq<(u32, Seq<u8>)>, upto: int)
    requires
        0 <= upto <= results.len(),
        forall|i: int, j: int| 0 <= i < j < upto ==> results[i].0 != results[j].0,
    ensures
        forall|k: int|
            0 <= k < upto ==> {
                &&& pool.completed_all(results, upto).ready.contains_key((#[trigger] results[k]).0)
                &&& pool.completed_all(results, upto).ready[results[k].0] == results[k].1
            },
    decreases upto,
{
    if upto > 0 {
        lemma_results_wait(pool, results, upto - 1);
        let before = pool.completed_all(results, upto - 1);
        let after = pool.completed_all(results, upto);
        assert forall|k: int| 0 <= k < upto implies {
            &&& after.ready.contains_key((#[trigger] results[k]).0)
            &&& after.ready[results[k].0] == results[k].1
        } by {
            if k < upto - 1 {
                assert(results[k].0 != results[upto - 1].0);
                assert(before.ready.contains_key(results[k].0));
            }
        }
    }
}

/// Whether the result of the job with the given number is among `results`.
pub open spec fn has_result(results: Seq<(u32, Seq<u8>)>, index: u32) -> bool {
    exists|j: int| 0 <= j < results.len() && (#[trigger] results[j]).0 == index
}

/// The ordering invariant of the scheduler. Let the next `count` jobs have come back,
/// each once, in any order at all. Then `count` releases hand out their results in
/// the order of submission: release `k` hands out the result of the job with the
/// `k`-th number from the one that is due.
pub proof fn lemma_submission_order(pool: PoolView, results: Seq<(u32, Seq<u8>)>)
    requires
        results.len() <= 0x1_0000_0000,
        forall|i: int, j: int| 0 <= i < j < results.len() ==> results[i].0 != results[j].0,
        forall|k: nat|
            k < results.len() ==> has_result(results, #[trigger] index_after(pool.current, k)),
    ensures
        forall|k: nat, j: int|
            k < results.len() && 0 <= j < results.len() && (#[trigger] results[j]).0
                == index_after(pool.current, k) ==> (#[trigger] pool.completed_all(
                results,
                results.len() as int,
            ).releases(results.len())[k as int]) == Some(results[j].1),
        pool.completed_all(results, results.len() as int).released_times(results.len()).current
            == index_after(pool.current, results.len()),
{
    let count = results.len();
    let back = pool.completed_all(results, count as int);
    lemma_completion_keeps_cursor(pool, results, count as int);
    lemma_results_wait(pool, results, count as int);
    assert forall|k: nat| k < count implies back.ready.contains_key(
        #[trigger] index_after(back.current, k),
    ) by {
        assert(has_result(results, index_after(pool.current, k)));
        let j = choose|j: int|
            0 <= j < results.len() && (#[trigger] results[j]).0 == index_after(pool.current, k);
        assert(back.ready.contains_key(results[j].0));
    }
    lemma_release_in_submission_order(back, count);
    assert forall|k: nat, j: int|
        k < results.len() && 0 <= j < results.len() && (#[trigger] results[j]).0 == index_after(
            pool.current,
            k,
        ) implies (#[trigger] back.releases(count)[k as int]) == Some(results[j].1) by {
        assert(back.ready[results[j].0] == results[j].1);
        assert(back.releases(count)[k as int] == Some(back.ready[index_after(back.current, k)]));
    }
}

/// A release without the due result hands out nothing and changes nothing, whatever
/// else waits.
pub proof fn lemma_release_waits(pool: PoolView)
    requires
        !pool.ready.contains_key(pool.current),
    ensures
        pool.due().is_none(),
        pool.released() == pool,
{
}

/// The results that wait, each as its bytes.
pub open spec fn bytes_of(ready: Map<u32, Vec<u8>>) -> Map<u32, Seq<u8>> {
    Map::new(|k: u32| ready.contains_key(k), |k: u32| ready[k]@)
}

/// The encode scheduler with its two channels: jobs go out on `tx`, results come
/// back on `rx`.
pub struct EncodePool {
    tx: Sender<(u32, Vec<u8>, usize, usize, bool, u8)>,
    rx: Receiver<(Vec<u8>, u32)>,
    max_workers: usize,
    busy: usize,
    next: u32,
    current: u32,
    ready: BTreeMap<u32, Vec<u8>>,
}

impl View for EncodePool {
    type V = PoolView;

    closed spec fn view(&self) -> PoolView {
        PoolView {
            max_workers: self.max_workers as nat,
            busy: self.busy as nat,
            next: self.next,
            current: self.current,
            ready: bytes_of(self.ready@),
        }
    }
}

/// `Sender::try_send` of crossbeam_channel: hands the job to the channel without
/// waiting. The result says whether the channel took it; it does not when the channel
/// is full or every receiver is gone. Which of these happens is not claimed.
#[verifier::external_body]
fn send_job(
    tx: &Sender<(u32, Vec<u8>, usize, usize, bool, u8)>,
    job: (u32, Vec<u8>, usize, usize, bool, u8),
) -> (sent: bool) {
    tx.try_send(job).is_ok()
}

/// `Receiver::try_recv` of crossbeam_channel: takes a result from the channel if one
/// is there, without waiting. What is there depends on the workers; nothing is claimed.
#[verifier::external_body]
fn try_recv_result(rx: &Receiver<(Vec<u8>, u32)>) -> (result: Option<(Vec<u8>, u32)>) {
    rx.try_recv().ok()
}

fn step_index(index: u32) -> (after: u32)
    ensures
        after == next_index(index),
{
    if index == u32::MAX {
        0
    } else {
        index + 1
    }
}

impl EncodePool {
    /// A scheduler for `max_workers` workers behind the two channels, with nothing out
    /// and nothing waiting.
    pub fn new(
        tx: Sender<(u32, Vec<u8>, usize, usize, bool, u8)>,
        rx: Receiver<(Vec<u8>, u32)>,
        max_workers: usize,
    ) -> (pool: Self)
        ensures
            pool@ == (PoolView {
                max_workers: max_workers as nat,
                busy: 0,
                next: 0,
                current: 0,
                ready: Map::empty(),
            }),
    {
        let pool = EncodePool {
            tx,
            rx,
            max_workers,
            busy: 0,
            next: 0,
            current: 0,
            ready: BTreeMap::new(),
        };
        assert(bytes_of(pool.ready@) =~= Map::empty());
        pool
    }

    /// The number of jobs that are out.
    pub fn busy(&self) -> (busy: usize)
        ensures
            busy == self@.busy,
    {
        self.busy
    }

    /// The sequence number that is released next.
    pub fn current(&self) -> (current: u32)
        ensures
            current == self@.current,
    {
        self.current
    }

    /// The sequence number that the next job gets.
    pub fn next(&self) -> (next: u32)
        ensures
            next == self@.next,
    {
        self.next
    }

    /// Whether all workers are taken.
    pub fn is_full(&self) -> (full: bool)
        ensures
            full == self@.full(),
    {
        self.busy >= self.max_workers
    }

    /// Whether a frame is taken on: it must hold data, and a worker must be free.
    pub fn admits(&self, data: &[u8]) -> (admitted: bool)
        ensures
            admitted == self@.admits(data@),
    {
        data.len() > 0 && self.busy < self.max_workers
    }

    /// The job that carries a frame to the workers: the frame as it is, under the
    /// sequence number that is next.
    pub fn job(
        &self,
        data: Vec<u8>,
        width: usize,
        height: usize,
        format_bgr: bool,
        quality: u8,
    ) -> (job: (u32, Vec<u8>, usize, usize, bool, u8))
        ensures
            job == (self@.next, data, width, height, format_bgr, quality),
    {
        (self.next, data, width, height, format_bgr, quality)
    }

    /// Takes note of what became of a job that was offered to the channel: one that
    /// went out takes the sequence number and a worker, one that did not leaves no trace.
    pub fn offered(&mut self, sent: bool)
        requires
            sent ==> !old(self)@.full(),
        ensures
            final(self)@ == if sent {
                old(self)@.submitted()
            } else {
                old(self)@
            },
    {
        if sent {
            self.next = step_index(self.next);
            self.busy = self.busy + 1;
        }
    }

    /// Hands a frame to the pool if it holds data and a worker is free; otherwise, or
    /// when the channel does not take the job, the frame is dropped and nothing changes.
    /// The result says whether the job went out.
    pub fn submit(
        &mut self,
        data: Vec<u8>,
        width: usize,
        height: usize,
        format_bgr: bool,
        quality: u8,
    ) -> (sent: bool)
        ensures
            sent ==> old(self)@.admits(data@),
            final(self)@ == if sent {
                old(self)@.submitted()
            } else {
                old(self)@
            },
    {
        if !self.admits(data.as_slice()) {
            return false;
        }
        let job = self.job(data, width, height, format_bgr, quality);
        let sent = send_job(&self.tx, job);
        self.offered(sent);
        sent
    }

    /// Takes the result of job `index` into the reorder buffer.
    pub fn complete(&mut self, index: u32, jpeg: Vec<u8>)
        ensures
            final(self)@ == old(self)@.completed(index, jpeg@),
    {
        broadcast use vstd::laws_cmp::group_laws_cmp;

        if self.busy > 0 {
            self.busy = self.busy - 1;
        }
        let ghost before = self.ready@;
        self.ready.insert(index, jpeg);
        assert(bytes_of(self.ready@) =~= bytes_of(before).insert(index, jpeg@));
    }

    /// Takes the results that have come back into the reorder buffer, at most one for
    /// each job that is out. Which results these are depends on the workers: `taken`
    /// says how many, and the scheduler is as after these results, in some order.
    pub fn drain(&mut self) -> (taken: usize)
        ensures
            taken <= old(self)@.busy,
            exists|results: Seq<(u32, Seq<u8>)>|
                results.len() == taken && final(self)@ == #[trigger] old(self)@.completed_all(
                    results,
                    taken as int,
                ),
            final(self)@.current == old(self)@.current,
            final(self)@.next == old(self)@.next,
            final(self)@.max_workers == old(self)@.max_workers,
            final(self)@.busy == old(self)@.busy - taken,
    {
        let ghost mut results: Seq<(u32, Seq<u8>)> = Seq::empty();
        let outstanding = self.busy;
        let mut taken: usize = 0;
        while taken < outstanding
            invariant
                taken <= outstanding,
                outstanding == old(self)@.busy,
                results.len() == taken,
                self@ == old(self)@.completed_all(results, taken as int),
                self@.busy == outstanding - taken,
                self@.current == old(self)@.current,
                self@.next == old(self)@.next,
                self@.max_workers == old(self)@.max_workers,
            decreases outstanding - taken,
        {
            match try_recv_result(&self.rx) {
                Some((jpeg, index)) => {
                    let ghost longer = results.push((index, jpeg@));
                    proof {
                        lemma_completed_all_prefix(old(self)@, results, longer, taken as int);
                    }
                    self.complete(index, jpeg);
                    proof {
                        results = longer;
                    }
                    taken = taken + 1;
                },
                None => {
                    break ;
                },
            }
        }
        taken
    }

    /// Releases the result that is due, if it is there.
    pub fn release(&mut self) -> (jpeg: Option<Vec<u8>>)
        ensures
            final(self)@ == old(self)@.released(),
            match old(self)@.due() {
                Some(bytes) => jpeg.is_some() && jpeg.unwrap()@ == bytes,
                None => jpeg.is_none(),
            },
    {
        broadcast use vstd::laws_cmp::group_laws_cmp;
        broadcast use vstd::std_specs::btree::group_btree_axioms;

        let ghost before = self.ready@;
        let due = self.current;
        match self.ready.remove(&due) {
            Some(jpeg) => {
                assert(bytes_of(self.ready@) =~= bytes_of(before).remove(due));
                self.current = step_index(due);
                Some(jpeg)
            },
            None => {
                assert(bytes_of(self.ready@) =~= bytes_of(before));
                None
            },
        }
    }
}

/// Results taken one by one are the results taken together.
pub proof fn lemma_completed_all_prefix(
    pool: PoolView,
    shorter: Seq<(u32, Seq<u8>)>,
    longer: Seq<(u32, Seq<u8>)>,
    upto: int,
)
    requires
        0 <= upto <= shorter.len() <= longer.len(),
        forall|k: int| 0 <= k < upto ==> shorter[k] == longer[k],
    ensures
        pool.completed_all(shorter, upto) == pool.completed_all(longer, upto),
    decreases upto,
{
    if upto > 0 {
        lemma_completed_all_prefix(pool, shorter, longer, upto - 1);
    }
}

/// Hands a frame to the pool, takes in what has come back, and returns the result
/// that is due; no bytes when it is not there yet.
pub fn encode_jpeg_pool(
    pool: &mut EncodePool,
    data: Vec<u8>,
    width: usize,
    height: usize,
    format_bgr: bool,
    quality: u8,
) -> (jpeg: Vec<u8>)
    ensures
        exists|sent: bool, results: Seq<(u32, Seq<u8>)>| #[trigger]
            pool_call(old(pool)@, data@, sent, results, final(pool)@, jpeg@),
{
    let sent = pool.submit(data, width, height, format_bgr, quality);
    let ghost submitted = pool@;
    let taken = pool.drain();
    let ghost drained = pool@;
    let ghost results = choose|results: Seq<(u32, Seq<u8>)>|
        results.len() == taken && drained == #[trigger] submitted.completed_all(
            results,
            taken as int,
        );
    let jpeg = match pool.release() {
        Some(jpeg) => jpeg,
        None => Vec::new(),
    };
    assert(pool_call(old(pool)@, data@, sent, results, pool@, jpeg@));
    jpeg
}

/// One call of the scheduler: the frame goes out (`sent`) or is dropped, the results
/// that have come back are taken in, and the result that is due is released.
pub open spec fn pool_call(
    before: PoolView,
    data: Seq<u8>,
    sent: bool,
    results: Seq<(u32, Seq<u8>)>,
    after: PoolView,
    jpeg: Seq<u8>,
) -> bool {
    let submitted = if sent {
        before.submitted()
    } else {
        before
    };
    let drained = submitted.completed_all(results, results.len() as int);
    &&& sent ==> before.admits(data)
    &&& results.len() <= submitted.busy
    &&& after == drained.released()
    &&& jpeg == released_bytes(drained.due())
}

/// What a release hands to the caller: the bytes of the result, or none.
pub open spec fn released_bytes(due: Option<Seq<u8>>) -> Seq<u8> {
    match due {
        Some(bytes) => bytes,
        None => Seq::empty(),
    }
}

/// Whether all workers of the pool are taken.
pub fn workers_full(pool: &EncodePool) -> (full: bool)
    ensures
        full == pool@.full(),
{
    pool.is_full()
}

} // verus!
