//! The bookkeeping of a search run: attempt accounting, the claim on a found
//! key, and the worker's loop over a given stream of candidates.

use vstd::prelude::*;
use crate::batch::{all_complete, batch_complete, is_first_match, no_match, record_first_match,
    BatchPattern};

verus! {

/// Attempts between two flushes of a worker in a batch run.
pub const BATCH_FLUSH_INTERVAL: u64 = 5_000;

/// Attempts between two flushes of a worker in the immediate search.
pub const IMMEDIATE_FLUSH_INTERVAL: u64 = 10_000;

/// A worker's own count of attempts, which it hands to the shared counter
/// in lots of a fixed size.
#[derive(Debug)]
pub struct AttemptCounter {
    interval: u64,
    pending: u64,
}

impl AttemptCounter {
    #[verifier::type_invariant]
    spec fn valid(&self) -> bool {
        self.pending < self.interval
    }

    /// The size of a lot.
    pub closed spec fn interval(&self) -> nat {
        self.interval as nat
    }

    /// Attempts counted and not yet handed on.
    pub closed spec fn pending(&self) -> nat {
        self.pending as nat
    }

    /// A counter with nothing pending.
    pub fn new(interval: u64) -> (c: AttemptCounter)
        requires
            interval > 0,
        ensures
            c.interval() == interval,
            c.pending() == 0,
    {
        AttemptCounter { interval, pending: 0 }
    }

    /// Attempts counted and not yet handed on.
    pub fn pending_attempts(&self) -> (n: u64)
        ensures
            n == self.pending(),
            n < self.interval(),
    {
        proof {
            use_type_invariant(self);
        }
        self.pending
    }

    /// Counts one attempt. Gives the lot to add to the shared counter: the
    /// whole interval when this attempt fills it, and nothing otherwise.
    pub fn record(&mut self) -> (flush: u64)
        ensures
            final(self).interval() == old(self).interval(),
            flush == flush_after(old(self).interval(), old(self).pending()),
            final(self).pending() == pending_after(old(self).interval(), old(self).pending()),
    {
        proof {
            use_type_invariant(&*self);
        }
        if self.pending + 1 == self.interval {
            self.pending = 0;
            self.interval
        } else {
            self.pending += 1;
            0
        }
    }

    /// Ends the count. Gives what is left to add to the shared counter.
    pub fn finish(&mut self) -> (flush: u64)
        ensures
            final(self).interval() == old(self).interval(),
            flush == old(self).pending(),
            final(self).pending() == 0,
    {
        proof {
            use_type_invariant(&*self);
        }
        let rest = self.pending;
        self.pending = 0;
        rest
    }
}

/// What one more attempt hands to the shared counter.
pub open spec fn flush_after(interval: nat, pending: nat) -> nat {
    if pending + 1 == interval {
        interval
    } else {
        0
    }
}

/// What one more attempt leaves pending.
pub open spec fn pending_after(interval: nat, pending: nat) -> nat {
    if pending + 1 == interval {
        0
    } else {
        pending + 1
    }
}

/// What `attempts` attempts, counted from nothing, leave pending.
pub open spec fn pending_of(interval: nat, attempts: nat) -> nat
    decreases attempts,
{
    if attempts == 0 {
        0
    } else {
        pending_after(interval, pending_of(interval, (attempts - 1) as nat))
    }
}

/// The sum of what `attempts` attempts, counted from nothing, hand to the
/// shared counter.
pub open spec fn flushed_of(interval: nat, attempts: nat) -> nat
    decreases attempts,
{
    if attempts == 0 {
        0
    } else {
        flushed_of(interval, (attempts - 1) as nat) + flush_after(
            interval,
            pending_of(interval, (attempts - 1) as nat),
        )
    }
}

/// No attempt is lost and none is counted twice: what a worker has handed
/// to the shared counter, with what it hands over when it ends, is the
/// number of its attempts.
pub proof fn lemma_attempts_accounted(interval: nat, attempts: nat)
    requires
        interval > 0,
    ensures
        flushed_of(interval, attempts) + pending_of(interval, attempts) == attempts,
        pending_of(interval, attempts) < interval,
    decreases attempts,
{
    if attempts > 0 {
        lemma_attempts_accounted(interval, (attempts - 1) as nat);
    }
}

/// What becomes of a key that a worker of the immediate search has found,
/// by the number that the shared count of found keys gave it.
#[derive(Clone, Copy, Debug, PartialEq, Eq, Structural)]
pub enum Claim {
    /// Enough keys were claimed before this one: it is dropped, and the
    /// worker stops.
    Surplus,
    /// The key is reported and stored, and the worker goes on.
    Keep,
    /// The key is reported and stored; it is the last one wanted, and the
    /// worker stops.
    KeepLast,
}

/// The claim of the key with number `key_number`, counted from one, where
/// `count` keys are wanted. No key with a number above `count` is kept.
pub fn claim(key_number: usize, count: usize) -> (c: Claim)
    ensures
        c == claim_spec(key_number, count),
{
    if key_number > count {
        Claim::Surplus
    } else if key_number == count {
        Claim::KeepLast
    } else {
        Claim::Keep
    }
}

/// The claim of the key with number `key_number` where `count` are wanted.
pub open spec fn claim_spec(key_number: usize, count: usize) -> Claim {
    if key_number > count {
        Claim::Surplus
    } else if key_number == count {
        Claim::KeepLast
    } else {
        Claim::Keep
    }
}

/// The counters of a run.
#[derive(Clone, Copy, Debug, PartialEq, Eq, Structural)]
pub struct SearchStatistics {
    /// Candidates that were evaluated.
    pub total_attempts: u64,
    /// Candidates that were credited to a target.
    pub keys_found: usize,
}

/// The collection after `key` was offered to it: the first target that
/// wants the key has it credited.
pub open spec fn after_offer(targets: Seq<BatchPattern>, key: Seq<u8>) -> Seq<BatchPattern> {
    if exists|i: int| is_first_match(targets, key, i) {
        let i = choose|i: int| is_first_match(targets, key, i);
        targets.update(i, targets[i].credited())
    } else {
        targets
    }
}

/// What a single worker makes of a stream of candidates.
pub struct RunOutcome {
    /// The targets at the end.
    pub targets: Seq<BatchPattern>,
    /// Candidates that were evaluated.
    pub attempts: nat,
    /// Candidates that were credited to a target.
    pub found: nat,
}

/// The run of a single worker: while a target is incomplete and a candidate
/// is left, the next candidate is offered to the collection and counted.
pub open spec fn run_spec(targets: Seq<BatchPattern>, keys: Seq<Seq<u8>>) -> RunOutcome
    decreases keys.len(),
{
    if keys.len() == 0 || all_complete(targets) {
        RunOutcome { targets, attempts: 0, found: 0 }
    } else {
        let rest = run_spec(after_offer(targets, keys[0]), keys.drop_first());
        RunOutcome {
            targets: rest.targets,
            attempts: rest.attempts + 1,
            found: rest.found + if no_match(targets, keys[0]) {
                0nat
            } else {
                1nat
            },
        }
    }
}

/// The candidates as byte sequences.
pub open spec fn key_images(candidates: Seq<[u8; 32]>) -> Seq<Seq<u8>> {
    Seq::new(candidates.len(), |i: int| candidates[i]@)
}

/// Two matches of one key are the same target.
pub proof fn lemma_first_match_unique(targets: Seq<BatchPattern>, key: Seq<u8>, i: int, j: int)
    requires
        is_first_match(targets, key, i),
        is_first_match(targets, key, j),
    ensures
        i == j,
{
    if i < j {
        assert(!targets[i].wants(key));
    } else if j < i {
        assert(!targets[j].wants(key));
    }
}

/// Offering a key never lowers a count, changes nothing but counts, leaves
/// every complete target as it is, and credits at most one key.
pub proof fn lemma_offer_monotone(targets: Seq<BatchPattern>, key: Seq<u8>)
    ensures
        after_offer(targets, key).len() == targets.len(),
        forall|i: int|
            #![trigger after_offer(targets, key)[i]]
            0 <= i < targets.len() ==> {
                let before = targets[i];
                let after = after_offer(targets, key)[i];
                &&& after.current_count >= before.current_count
                &&& after.current_count <= before.current_count + 1
                &&& after.target_count == before.target_count
                &&& after.pattern == before.pattern
                &&& after.pattern_str == before.pattern_str
                &&& before.complete() ==> after == before
                &&& before.current_count <= before.target_count ==> after.current_count
                    <= after.target_count
            },
{
    if exists|i: int| is_first_match(targets, key, i) {
        let m = choose|i: int| is_first_match(targets, key, i);
        assert(targets[m].wants(key));
    }
}

/// Over a whole run no count ever goes down and nothing but counts changes;
/// a target that is complete stays as it is, so no further key is stored for
/// it; and a target within its count stays within it.
pub proof fn lemma_run_monotone(targets: Seq<BatchPattern>, keys: Seq<Seq<u8>>)
    ensures
        run_spec(targets, keys).targets.len() == targets.len(),
        run_spec(targets, keys).found <= run_spec(targets, keys).attempts <= keys.len(),
        forall|i: int|
            #![trigger run_spec(targets, keys).targets[i]]
            0 <= i < targets.len() ==> {
                let before = targets[i];
                let after = run_spec(targets, keys).targets[i];
                &&& after.current_count >= before.current_count
                &&& after.target_count == before.target_count
                &&& after.pattern == before.pattern
                &&& after.pattern_str == before.pattern_str
                &&& before.complete() ==> after == before
                &&& before.current_count <= before.target_count ==> after.current_count
                    <= after.target_count
            },
    decreases keys.len(),
{
    if keys.len() == 0 || all_complete(targets) {
    } else {
        let offered = after_offer(targets, keys[0]);
        lemma_offer_monotone(targets, keys[0]);
        lemma_run_monotone(offered, keys.drop_first());
        assert forall|i: int| 0 <= i < targets.len() implies {
            let before = targets[i];
            let after = #[trigger] run_spec(targets, keys).targets[i];
            &&& after.current_count >= before.current_count
            &&& after.target_count == before.target_count
            &&& after.pattern == before.pattern
            &&& after.pattern_str == before.pattern_str
            &&& before.complete() ==> after == before
            &&& before.current_count <= before.target_count ==> after.current_count
                <= after.target_count
        } by {
            let middle = offered[i];
            let after = run_spec(offered, keys.drop_first()).targets[i];
            assert(middle.current_count >= targets[i].current_count);
            assert(after.current_count >= middle.current_count);
        }
    }
}

/// A single target that wants one key: the run ends with the first
/// candidate that satisfies the pattern. That key is credited, every
/// candidate up to it is counted, and none after it is looked at.
pub proof fn lemma_single_target_run(targets: Seq<BatchPattern>, keys: Seq<Seq<u8>>, k: int)
    requires
        targets.len() == 1,
        targets[0].current_count == 0,
        targets[0].target_count == 1,
        0 <= k < keys.len(),
        targets[0].pattern.matches_spec(keys[k]),
        forall|j: int| 0 <= j < k ==> !targets[0].pattern.matches_spec(#[trigger] keys[j]),
    ensures
        run_spec(targets, keys).attempts == k + 1,
        run_spec(targets, keys).found == 1,
        run_spec(targets, keys).targets =~= seq![targets[0].credited()],
        run_spec(targets, keys).targets[0].current_count == 1,
        all_complete(run_spec(targets, keys).targets),
    decreases k,
{
    assert(!targets[0].complete());
    assert(!all_complete(targets));
    if k == 0 {
        assert(is_first_match(targets, keys[0], 0));
        assert forall|i: int| is_first_match(targets, keys[0], i) implies i == 0 by {
            lemma_first_match_unique(targets, keys[0], i, 0);
        }
        let offered = after_offer(targets, keys[0]);
        assert(offered =~= seq![targets[0].credited()]);
        assert(offered[0].complete());
        assert(all_complete(offered));
        assert(!no_match(targets, keys[0]));
        let rest = run_spec(offered, keys.drop_first());
        assert(rest.attempts == 0 && rest.found == 0 && rest.targets == offered);
    } else {
        assert(!targets[0].pattern.matches_spec(keys[0]));
        assert(no_match(targets, keys[0]));
        assert(after_offer(targets, keys[0]) == targets);
        let rest = keys.drop_first();
        assert(rest[k - 1] == keys[k]);
        assert forall|j: int| 0 <= j < k - 1 implies !targets[0].pattern.matches_spec(
            #[trigger] rest[j],
        ) by {
            assert(rest[j] == keys[j + 1]);
        }
        lemma_single_target_run(targets, rest, k - 1);
    }
}

/// Runs a single worker over `candidates`: while a target is incomplete and
/// a candidate is left, the next candidate is offered to the targets in
/// collection order, credited to the first that wants it, and counted. The
/// targets are updated in place. The attempts go through an `AttemptCounter`
/// of the given interval into the total: the total is their number.
pub fn vanity_keys_batch(
    batch_patterns: &mut Vec<BatchPattern>,
    candidates: &[[u8; 32]],
    interval: u64,
) -> (stats: SearchStatistics)
    requires
        interval > 0,
    ensures
        final(batch_patterns)@ == run_spec(old(batch_patterns)@, key_images(candidates@)).targets,
        stats.total_attempts == run_spec(old(batch_patterns)@, key_images(candidates@)).attempts,
        stats.keys_found == run_spec(old(batch_patterns)@, key_images(candidates@)).found,
        stats.keys_found <= stats.total_attempts <= candidates@.len(),
        stats.total_attempts < candidates@.len() ==> all_complete(final(batch_patterns)@),
{
    let ghost keys = key_images(candidates@);
    let n: usize = candidates.len();
    let mut counter = AttemptCounter::new(interval);
    let mut total: u64 = 0;
    let mut found: usize = 0;
    let mut i: usize = 0;
    assert(keys.skip(0) =~= keys);
    while i < n && !batch_complete(batch_patterns.as_slice())
        invariant
            interval > 0,
            n == candidates@.len(),
            keys == key_images(candidates@),
            i <= n,
            found <= i,
            counter.interval() == interval,
            total == flushed_of(interval as nat, i as nat),
            counter.pending() == pending_of(interval as nat, i as nat),
            run_spec(old(batch_patterns)@, keys).targets == run_spec(
                batch_patterns@,
                keys.skip(i as int),
            ).targets,
            run_spec(old(batch_patterns)@, keys).attempts == i + run_spec(
                batch_patterns@,
                keys.skip(i as int),
            ).attempts,
            run_spec(old(batch_patterns)@, keys).found == found + run_spec(
                batch_patterns@,
                keys.skip(i as int),
            ).found,
        decreases n - i,
    {
        let ghost before = batch_patterns@;
        let ghost left = keys.skip(i as int);
        assert(left[0] == candidates@[i as int]@);
        assert(left.drop_first() =~= keys.skip(i + 1));
        let hit = record_first_match(batch_patterns, candidates[i].as_slice());
        proof {
            match hit {
                Some(m) => {
                    assert(before[m as int].wants(left[0]));
                    assert forall|j: int| is_first_match(before, left[0], j) implies j == m by {
                        lemma_first_match_unique(before, left[0], j, m as int);
                    }
                },
                None => {},
            }
            assert(batch_patterns@ == after_offer(before, left[0]));
            lemma_attempts_accounted(interval as nat, i as nat);
            lemma_attempts_accounted(interval as nat, (i + 1) as nat);
        }
        if hit.is_some() {
            found += 1;
        }
        total += counter.record();
        i += 1;
    }
    proof {
        lemma_attempts_accounted(interval as nat, i as nat);
    }
    total += counter.finish();
    SearchStatistics { total_attempts: total, keys_found: found }
}

} // verus!
