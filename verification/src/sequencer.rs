//! The sequencer: puts fetch completions, which arrive in any order, back
//! into strictly increasing block-number order.
//!
//! Completions that arrive ahead of the next expected number wait in a
//! window keyed by block number. The window only ever holds numbers within
//! `capacity` of the next expected one, so its size is bounded.

use crate::task::{FetchOutcome, FetchResult, FetchTask};
use std::collections::HashMap;
use vstd::prelude::*;

verus! {

broadcast use vstd::std_specs::hash::group_hash_axioms;

/// The sequencer as a mathematical value.
pub struct Window<T> {
    /// The number of the next block to release.
    pub next_expected: u64,
    /// How far ahead of `next_expected` a block may arrive.
    pub capacity: nat,
    /// The blocks that arrived ahead of `next_expected`.
    pub held: Map<u64, T>,
}

/// What the sequencer answers to one fetch result.
pub enum Verdict<T> {
    /// The block was taken in; these blocks, in this order, are released.
    Released(Seq<(u64, T)>),
    /// The fetch gave no block; the block is to be fetched again.
    Retry(FetchTask),
    /// The fetch of this block failed for good.
    Fatal(u64),
    /// The result is for a block that is not awaited; it was dropped.
    Rejected(u64),
}

impl<T> Verdict<T> {
    /// The blocks that this verdict releases.
    pub open spec fn released(self) -> Seq<(u64, T)> {
        match self {
            Verdict::Released(blocks) => blocks,
            _ => Seq::empty(),
        }
    }
}

/// The first number at or after `from` and at most `limit` that `held` lacks.
pub open spec fn contiguous_end<T>(held: Map<u64, T>, from: int, limit: int) -> int
    decreases limit - from,
{
    if from < limit && 0 <= from <= u64::MAX && held.contains_key(from as u64) {
        contiguous_end(held, from + 1, limit)
    } else {
        from
    }
}

impl<T> Window<T> {
    /// An empty window that expects `start_block` first.
    pub open spec fn start(start_block: u64, capacity: nat) -> Window<T> {
        Window { next_expected: start_block, capacity, held: Map::empty() }
    }

    /// One past the largest number that the window can hold.
    pub open spec fn limit(self) -> int {
        self.next_expected + self.capacity
    }

    /// Every held number lies strictly between `next_expected` and the limit.
    pub open spec fn inv(self) -> bool {
        &&& self.capacity >= 1
        &&& self.held.dom().finite()
        &&& forall|k: u64| #[trigger]
            self.held.contains_key(k) ==> self.next_expected < k < self.limit() && k < u64::MAX
    }

    /// Whether a result for block `n` is awaited: `n` is inside the window,
    /// is not held yet, and is a number that can lie below a chain head.
    pub open spec fn admits(self, n: u64) -> bool {
        &&& self.next_expected <= n < self.limit()
        &&& n < u64::MAX
        &&& !self.held.contains_key(n)
    }

    /// The blocks released when block `n == next_expected` arrives: `n`
    /// itself and the held blocks that follow it without a gap.
    pub open spec fn run(self, n: u64, block: T) -> Seq<(u64, T)> {
        Seq::new(
            (contiguous_end(self.held, n + 1, self.limit()) - n) as nat,
            |i: int|
                if i == 0 {
                    (n, block)
                } else {
                    ((n + i) as u64, self.held[(n + i) as u64])
                },
        )
    }

    /// The window after block `n` arrived with its payload.
    pub open spec fn store(self, n: u64, block: T) -> (Window<T>, Seq<(u64, T)>) {
        if n == self.next_expected {
            let end = contiguous_end(self.held, n + 1, self.limit());
            (
                Window {
                    next_expected: end as u64,
                    capacity: self.capacity,
                    held: self.held.remove_keys(Set::new(|k: u64| n < k < end)),
                },
                self.run(n, block),
            )
        } else {
            (
                Window {
                    next_expected: self.next_expected,
                    capacity: self.capacity,
                    held: self.held.insert(n, block),
                },
                Seq::empty(),
            )
        }
    }

    /// The window after one fetch result, and the answer to it.
    pub open spec fn accept(self, result: FetchResult<T>) -> (Window<T>, Verdict<T>) {
        if !self.admits(result.block_number) {
            (self, Verdict::Rejected(result.block_number))
        } else {
            match result.outcome {
                FetchOutcome::Block(block) => {
                    let (next, released) = self.store(result.block_number, block);
                    (next, Verdict::Released(released))
                },
                FetchOutcome::Absent | FetchOutcome::Transient => (
                    self,
                    Verdict::Retry(result.task().again()),
                ),
                FetchOutcome::Fatal => (self, Verdict::Fatal(result.block_number)),
            }
        }
    }

    /// The window after a whole sequence of fetch results, and every block
    /// released on the way, in the order of release.
    pub open spec fn replay(self, results: Seq<FetchResult<T>>) -> (Window<T>, Seq<(u64, T)>)
        decreases results.len(),
    {
        if results.len() == 0 {
            (self, Seq::empty())
        } else {
            let (before, out) = self.replay(results.drop_last());
            let (after, verdict) = before.accept(results.last());
            (after, out + verdict.released())
        }
    }
}

/// `contiguous_end` is the number `end` whenever `held` has every number
/// from `from` up to `end` and lacks `end`, or `end` is the limit.
pub proof fn lemma_contiguous_end<T>(held: Map<u64, T>, from: int, limit: int, end: int)
    requires
        0 <= from <= end <= limit,
        end <= u64::MAX + 1,
        forall|k: u64| from <= k < end ==> held.contains_key(k),
        end == limit || end > u64::MAX || !held.contains_key(end as u64),
    ensures
        contiguous_end(held, from, limit) == end,
    decreases end - from,
{
    if from < end {
        lemma_contiguous_end(held, from + 1, limit, end);
    }
}

/// `contiguous_end` lies between `from` and the limit, `held` has every
/// number before it and does not have the number itself below the limit.
pub proof fn lemma_contiguous_end_bounds<T>(held: Map<u64, T>, from: int, limit: int)
    requires
        0 <= from <= limit,
        from <= u64::MAX + 1,
    ensures
        from <= contiguous_end(held, from, limit) <= limit,
        contiguous_end(held, from, limit) <= u64::MAX + 1,
        forall|k: u64|
            from <= k < contiguous_end(held, from, limit) ==> #[trigger] held.contains_key(k),
        contiguous_end(held, from, limit) < limit && contiguous_end(held, from, limit) <= u64::MAX
            ==> !held.contains_key(contiguous_end(held, from, limit) as u64),
    decreases limit - from,
{
    if from < limit && 0 <= from <= u64::MAX && held.contains_key(from as u64) {
        lemma_contiguous_end_bounds(held, from + 1, limit);
    }
}

/// One fetch result keeps the window well formed. It releases only when the
/// block is the expected one, and then a run of consecutive numbers that
/// starts at the old `next_expected` and ends just before the new one.
pub proof fn lemma_accept_inv<T>(w: Window<T>, result: FetchResult<T>)
    requires
        w.inv(),
    ensures
        w.accept(result).0.inv(),
        w.accept(result).0.capacity == w.capacity,
        w.accept(result).0.next_expected == w.next_expected + w.accept(result).1.released().len(),
        forall|i: int|
            0 <= i < w.accept(result).1.released().len() ==> (
            #[trigger] w.accept(result).1.released()[i]).0 == w.next_expected + i,
{
    let n = result.block_number;
    if w.admits(n) {
        match result.outcome {
            FetchOutcome::Block(block) => {
                let (after, released) = w.store(n, block);
                if n == w.next_expected {
                    lemma_contiguous_end_bounds(w.held, n + 1, w.limit());
                    let end = contiguous_end(w.held, n + 1, w.limit());
                    assert(end <= u64::MAX) by {
                        if end > n + 1 {
                            assert(w.held.contains_key((end - 1) as u64));
                        }
                    }
                    assert(!w.held.contains_key(end as u64));
                    assert(after.held.dom() =~= w.held.dom().difference(
                        Set::new(|k: u64| n < k < end),
                    ));
                    assert forall|k: u64| #[trigger] after.held.contains_key(k) implies (
                    after.next_expected < k < after.limit() && k < u64::MAX) by {
                        assert(w.held.contains_key(k));
                    }
                } else {
                    assert(after.held.dom() =~= w.held.dom().insert(n));
                    assert forall|k: u64| #[trigger] after.held.contains_key(k) implies (
                    after.next_expected < k < after.limit() && k < u64::MAX) by {
                        if k != n {
                            assert(w.held.contains_key(k));
                        }
                    }
                }
            },
            _ => {},
        }
    }
}

/// Nothing is made up: every released block is the one that just arrived
/// or one that was held, with the payload that it was held with, and every
/// block held afterwards is the one that just arrived or was held before.
pub proof fn lemma_released_were_held<T>(w: Window<T>, result: FetchResult<T>)
    requires
        w.inv(),
    ensures
        forall|i: int|
            0 <= i < w.accept(result).1.released().len() ==> {
                let (number, block) = #[trigger] w.accept(result).1.released()[i];
                ||| number == result.block_number && result.outcome == FetchOutcome::Block(block)
                ||| w.held.contains_key(number) && w.held[number] == block
            },
        forall|k: u64| #[trigger]
            w.accept(result).0.held.contains_key(k) ==> {
                ||| k == result.block_number && result.outcome == FetchOutcome::Block(
                    w.accept(result).0.held[k],
                )
                ||| w.held.contains_key(k) && w.held[k] == w.accept(result).0.held[k]
            },
{
    let n = result.block_number;
    if w.admits(n) {
        match result.outcome {
            FetchOutcome::Block(block) => {
                if n == w.next_expected {
                    lemma_contiguous_end_bounds(w.held, n + 1, w.limit());
                }
            },
            _ => {},
        }
    }
}

/// Ordering: whatever the order in which fetch results arrive, the blocks
/// released are numbered `next_expected`, `next_expected + 1`, and so on,
/// without a gap, a repeat or a swap, and the window expects the number
/// after the last released one.
pub proof fn lemma_released_in_order<T>(w: Window<T>, results: Seq<FetchResult<T>>)
    requires
        w.inv(),
    ensures
        w.replay(results).0.inv(),
        w.replay(results).0.capacity == w.capacity,
        w.replay(results).0.next_expected == w.next_expected + w.replay(results).1.len(),
        forall|i: int|
            0 <= i < w.replay(results).1.len() ==> (#[trigger] w.replay(results).1[i]).0
                == w.next_expected + i,
    decreases results.len(),
{
    if results.len() > 0 {
        lemma_released_in_order(w, results.drop_last());
        let (before, out) = w.replay(results.drop_last());
        lemma_accept_inv(before, results.last());
        let released = before.accept(results.last()).1.released();
        let all = w.replay(results).1;
        assert(all == out + released);
        assert forall|i: int| 0 <= i < all.len() implies (#[trigger] all[i]).0 == w.next_expected
            + i by {
            if i >= out.len() {
                assert(all[i] == released[i - out.len()]);
            }
        }
    }
}

/// A block that has not arrived holds back every later block: as long as
/// no result brings block `missing`, which the window awaits, the window
/// goes on expecting a block at or below it, and every released block has a
/// smaller number.
pub proof fn lemma_missing_block_holds_back_later_ones<T>(
    w: Window<T>,
    results: Seq<FetchResult<T>>,
    missing: u64,
)
    requires
        w.inv(),
        w.next_expected <= missing,
        !w.held.contains_key(missing),
        forall|j: int|
            0 <= j < results.len() ==> !((#[trigger] results[j]).block_number == missing
                && results[j].outcome is Block),
    ensures
        w.replay(results).0.next_expected <= missing,
        !w.replay(results).0.held.contains_key(missing),
        forall|i: int|
            0 <= i < w.replay(results).1.len() ==> (#[trigger] w.replay(results).1[i]).0 < missing,
    decreases results.len(),
{
    lemma_released_in_order(w, results);
    if results.len() > 0 {
        let earlier = results.drop_last();
        assert forall|j: int| 0 <= j < earlier.len() implies !((
        #[trigger] earlier[j]).block_number == missing && earlier[j].outcome is Block) by {
            assert(earlier[j] == results[j]);
        }
        lemma_missing_block_holds_back_later_ones(w, earlier, missing);
        lemma_released_in_order(w, earlier);
        let before = w.replay(earlier).0;
        let result = results.last();
        assert(result == results[results.len() - 1]);
        lemma_accept_inv(before, result);
        lemma_released_were_held(before, result);
        let (after, verdict) = before.accept(result);
        let released = verdict.released();
        if released.len() > 0 && after.next_expected > missing {
            let i = missing - before.next_expected;
            assert(released[i].0 == missing);
        }
    }
}

/// Whether one of `results` is for block `m`.
pub open spec fn arrived<T>(results: Seq<FetchResult<T>>, m: u64) -> bool {
    exists|j: int| 0 <= j < results.len() && (#[trigger] results[j]).block_number == m
}

/// Whether one of `results` brought `block` as block `m`.
pub open spec fn brought<T>(results: Seq<FetchResult<T>>, m: u64, block: T) -> bool {
    exists|j: int|
        0 <= j < results.len() && (#[trigger] results[j]).block_number == m && results[j].outcome
            == FetchOutcome::Block(block)
}

/// Whether the window took block `m` in after it started at `start`: the
/// block was released or is held.
pub open spec fn taken_in<T>(w: Window<T>, start: u64, m: u64) -> bool {
    start <= m < w.next_expected || w.held.contains_key(m)
}

/// Nothing is made up over a whole run: a window that starts empty releases
/// and holds only blocks that a fetch result brought, each under its own
/// number and with its own payload.
pub proof fn lemma_released_blocks_were_fetched<T>(
    start: u64,
    capacity: nat,
    results: Seq<FetchResult<T>>,
)
    requires
        capacity >= 1,
    ensures
        forall|i: int|
            0 <= i < Window::<T>::start(start, capacity).replay(results).1.len() ==> brought(
                results,
                (#[trigger] Window::<T>::start(start, capacity).replay(results).1[i]).0,
                Window::<T>::start(start, capacity).replay(results).1[i].1,
            ),
        forall|m: u64| #[trigger]
            Window::<T>::start(start, capacity).replay(results).0.held.contains_key(m) ==> brought(
                results,
                m,
                Window::<T>::start(start, capacity).replay(results).0.held[m],
            ),
    decreases results.len(),
{
    let w = Window::<T>::start(start, capacity);
    if results.len() > 0 {
        let earlier = results.drop_last();
        let last = results.len() - 1;
        lemma_released_blocks_were_fetched(start, capacity, earlier);
        lemma_released_in_order(w, earlier);
        let (before, out) = w.replay(earlier);
        let result = results[last];
        lemma_released_were_held(before, result);
        let (after, verdict) = before.accept(result);
        let released = verdict.released();
        let all = w.replay(results).1;
        assert(all == out + released);
        assert forall|m: u64, block: T| brought(earlier, m, block) implies brought(
            results,
            m,
            block,
        ) by {
            let j = choose|j: int|
                0 <= j < earlier.len() && (#[trigger] earlier[j]).block_number == m
                    && earlier[j].outcome == FetchOutcome::Block(block);
            assert(results[j] == earlier[j]);
        }
        assert forall|i: int| 0 <= i < all.len() implies brought(
            results,
            (#[trigger] all[i]).0,
            all[i].1,
        ) by {
            if i < out.len() {
                assert(all[i] == out[i]);
                assert(brought(earlier, out[i].0, out[i].1));
            } else {
                let (number, block) = released[i - out.len()];
                assert(all[i] == released[i - out.len()]);
                if number == result.block_number && result.outcome == FetchOutcome::Block(block) {
                    assert(results[last].block_number == number);
                } else {
                    assert(brought(earlier, number, block));
                }
            }
        }
        assert forall|m: u64| #[trigger] after.held.contains_key(m) implies brought(
            results,
            m,
            after.held[m],
        ) by {
            if m == result.block_number && result.outcome == FetchOutcome::Block(after.held[m]) {
                assert(results[last].block_number == m);
            } else {
                assert(brought(earlier, m, before.held[m]));
            }
        }
    }
}

/// While every result brings a block that has not come before and that
/// lies within `span` numbers of the start, with `span` at most the
/// capacity, the window takes every block in: the blocks released or held
/// are exactly the blocks that arrived.
pub proof fn lemma_arrivals_are_taken_in<T>(
    start: u64,
    capacity: nat,
    span: nat,
    results: Seq<FetchResult<T>>,
)
    requires
        capacity >= 1,
        span <= capacity,
        start + span <= u64::MAX,
        forall|j: int|
            0 <= j < results.len() ==> (#[trigger] results[j]).outcome is Block && start
                <= results[j].block_number < start + span,
        forall|i: int, j: int|
            0 <= i < j < results.len() ==> (#[trigger] results[i]).block_number != (
            #[trigger] results[j]).block_number,
    ensures
        forall|m: u64|
            #![trigger taken_in(Window::<T>::start(start, capacity).replay(results).0, start, m)]
            #![trigger arrived(results, m)]
            taken_in(Window::<T>::start(start, capacity).replay(results).0, start, m) <==> arrived(
                results,
                m,
            ),
    decreases results.len(),
{
    let w = Window::<T>::start(start, capacity);
    lemma_released_in_order(w, results);
    if results.len() > 0 {
        let earlier = results.drop_last();
        let last = results.len() - 1;
        assert forall|j: int| 0 <= j < earlier.len() implies (#[trigger] earlier[j]).outcome
            is Block && start <= earlier[j].block_number < start + span by {
            assert(earlier[j] == results[j]);
        }
        assert forall|i: int, j: int| 0 <= i < j < earlier.len() implies (
        #[trigger] earlier[i]).block_number != (#[trigger] earlier[j]).block_number by {
            assert(earlier[i] == results[i]);
            assert(earlier[j] == results[j]);
        }
        lemma_arrivals_are_taken_in(start, capacity, span, earlier);
        lemma_released_in_order(w, earlier);
        let before = w.replay(earlier).0;
        let result = results[last];
        let n = result.block_number;
        assert(!arrived(earlier, n)) by {
            if arrived(earlier, n) {
                let j = choose|j: int|
                    0 <= j < earlier.len() && (#[trigger] earlier[j]).block_number == n;
                assert(earlier[j] == results[j]);
                assert(results[j].block_number != results[last].block_number);
            }
        }
        assert(!taken_in(before, start, n));
        assert(before.admits(n));
        lemma_accept_inv(before, result);
        let after = before.accept(result).0;
        if n == before.next_expected {
            lemma_contiguous_end_bounds(before.held, n + 1, before.limit());
        }
        assert forall|m: u64| taken_in(after, start, m) <==> arrived(results, m) by {
            if arrived(results, m) {
                let j = choose|j: int|
                    0 <= j < results.len() && (#[trigger] results[j]).block_number == m;
                if j < last {
                    assert(earlier[j] == results[j]);
                    assert(arrived(earlier, m));
                    assert(taken_in(before, start, m));
                } else {
                    assert(m == n);
                }
                assert(taken_in(after, start, m));
            }
            if taken_in(after, start, m) {
                if m == n {
                    assert(results[last].block_number == m);
                } else {
                    assert(taken_in(before, start, m));
                    assert(arrived(earlier, m));
                    let j = choose|j: int|
                        0 <= j < earlier.len() && (#[trigger] earlier[j]).block_number == m;
                    assert(results[j] == earlier[j]);
                }
                assert(arrived(results, m));
            }
        }
    }
}

/// Ordering, in full: let the blocks `start`, `start + 1`, and so on, as
/// many as `results` is long and no more than the capacity, arrive once
/// each in any order whatever. Then every one of them is released, in
/// block-number order, and the window is left empty.
pub proof fn lemma_every_arrival_order_releases_all<T>(
    start: u64,
    capacity: nat,
    results: Seq<FetchResult<T>>,
)
    requires
        capacity >= 1,
        results.len() <= capacity,
        start + results.len() <= u64::MAX,
        forall|j: int|
            0 <= j < results.len() ==> (#[trigger] results[j]).outcome is Block && start
                <= results[j].block_number < start + results.len(),
        forall|i: int, j: int|
            0 <= i < j < results.len() ==> (#[trigger] results[i]).block_number != (
            #[trigger] results[j]).block_number,
    ensures
        Window::<T>::start(start, capacity).replay(results).1.len() == results.len(),
        Window::<T>::start(start, capacity).replay(results).0.next_expected == start
            + results.len(),
        Window::<T>::start(start, capacity).replay(results).0.held == Map::<u64, T>::empty(),
        forall|i: int|
            0 <= i < results.len() ==> (#[trigger] Window::<T>::start(start, capacity).replay(
                results,
            ).1[i]).0 == start + i,
        forall|i: int|
            0 <= i < results.len() ==> brought(
                results,
                (#[trigger] Window::<T>::start(start, capacity).replay(results).1[i]).0,
                Window::<T>::start(start, capacity).replay(results).1[i].1,
            ),
{
    let w = Window::<T>::start(start, capacity);
    let count = results.len();
    lemma_released_in_order(w, results);
    lemma_released_blocks_were_fetched(start, capacity, results);
    lemma_arrivals_are_taken_in(start, capacity, count, results);
    let (after, out) = w.replay(results);
    let numbers = Seq::new(count, |j: int| results[j].block_number as int);
    let range = vstd::set_lib::set_int_range(start as int, start + count);
    assert(numbers.no_duplicates()) by {
        assert forall|i: int, j: int|
            0 <= i < numbers.len() && 0 <= j < numbers.len() && i != j implies numbers[i]
            != numbers[j] by {
            if i < j {
                assert(results[i].block_number != results[j].block_number);
            } else {
                assert(results[j].block_number != results[i].block_number);
            }
        }
    }
    numbers.unique_seq_to_set();
    vstd::set_lib::lemma_int_range(start as int, start + count);
    assert(numbers.to_set().subset_of(range)) by {
        assert forall|x: int| numbers.to_set().contains(x) implies range.contains(x) by {
            let j = choose|j: int| 0 <= j < numbers.len() && numbers[j] == x;
            assert(start <= results[j].block_number < start + count);
        }
    }
    vstd::set_lib::lemma_len_subset(numbers.to_set(), range);
    vstd::set_lib::lemma_subset_equality(numbers.to_set(), range);
    assert forall|m: u64| start <= m < start + count implies arrived(results, m) by {
        assert(range.contains(m as int));
        assert(numbers.to_set().contains(m as int));
        let j = choose|j: int| 0 <= j < numbers.len() && numbers[j] == m as int;
        assert(results[j].block_number == m);
    }
    if after.next_expected < start + count {
        let m = after.next_expected;
        assert(arrived(results, m));
        assert(taken_in(after, start, m));
        assert(after.held.contains_key(m));
    }
    if after.next_expected > start + count {
        let m = (start + count) as u64;
        assert(taken_in(after, start, m));
        assert(arrived(results, m));
        let j = choose|j: int| 0 <= j < results.len() && (#[trigger] results[j]).block_number == m;
        assert(results[j].block_number < start + count);
    }
    assert(after.held =~= Map::<u64, T>::empty()) by {
        assert forall|m: u64| !after.held.contains_key(m) by {
            if after.held.contains_key(m) {
                assert(taken_in(after, start, m));
                assert(arrived(results, m));
                let j = choose|j: int|
                    0 <= j < results.len() && (#[trigger] results[j]).block_number == m;
                assert(results[j].block_number < start + count);
            }
        }
    }
}

/// The window is bounded: it never holds as many blocks as its capacity.
pub proof fn lemma_window_bounded<T>(w: Window<T>)
    requires
        w.inv(),
    ensures
        w.held.dom().len() < w.capacity,
{
    let lo = w.next_expected + 1;
    let hi = w.limit();
    let numbers = w.held.dom().map(|k: u64| k as int);
    vstd::set_lib::lemma_int_range(lo, hi);
    assert forall|x: int| numbers.contains(x) implies vstd::set_lib::set_int_range(
        lo,
        hi,
    ).contains(x) by {
        let k = choose|k: u64| w.held.dom().contains(k) && k as int == x;
        assert(w.held.contains_key(k));
    }
    vstd::set_lib::lemma_len_subset(numbers, vstd::set_lib::set_int_range(lo, hi));
    assert(vstd::relations::injective(|k: u64| k as int));
    vstd::set_lib::lemma_map_size(w.held.dom(), numbers, |k: u64| k as int);
}

/// What [`Sequencer::accept`] answers; see [`Verdict`].
pub enum Sequenced<T> {
    Released(Vec<(u64, T)>),
    Retry(FetchTask),
    Fatal(u64),
    Rejected(u64),
}

impl<T> View for Sequenced<T> {
    type V = Verdict<T>;

    open spec fn view(&self) -> Verdict<T> {
        match self {
            Sequenced::Released(blocks) => Verdict::Released(blocks@),
            Sequenced::Retry(task) => Verdict::Retry(*task),
            Sequenced::Fatal(n) => Verdict::Fatal(*n),
            Sequenced::Rejected(n) => Verdict::Rejected(*n),
        }
    }
}

/// Reorders fetch completions into block-number order.
pub struct Sequencer<T> {
    next_expected: u64,
    capacity: usize,
    window: HashMap<u64, T>,
}

impl<T> View for Sequencer<T> {
    type V = Window<T>;

    closed spec fn view(&self) -> Window<T> {
        Window {
            next_expected: self.next_expected,
            capacity: self.capacity as nat,
            held: self.window@,
        }
    }
}

impl<T> Sequencer<T> {
    /// The sequencer's invariant: that of its window.
    pub open spec fn wf(&self) -> bool {
        self@.inv() && self@.capacity <= usize::MAX
    }

    /// A sequencer that releases `start_block` first and accepts blocks up
    /// to `capacity` numbers ahead of the next one to release.
    pub fn new(start_block: u64, capacity: usize) -> (sequencer: Self)
        requires
            capacity >= 1,
        ensures
            sequencer.wf(),
            sequencer@ == Window::<T>::start(start_block, capacity as nat),
    {
        Sequencer { next_expected: start_block, capacity, window: HashMap::new() }
    }

    /// The number of the next block to release.
    pub fn next_expected(&self) -> (n: u64)
        ensures
            n == self@.next_expected,
    {
        self.next_expected
    }

    /// How far ahead of the next expected block a result may arrive.
    pub fn capacity(&self) -> (c: usize)
        ensures
            c == self@.capacity,
    {
        self.capacity
    }

    /// How many blocks wait in the window.
    pub fn held(&self) -> (n: usize)
        requires
            self.wf(),
        ensures
            n == self@.held.dom().len(),
            n < self@.capacity,
    {
        proof {
            lemma_window_bounded(self@);
        }
        self.window.len()
    }

    /// Whether a result for block `n` is awaited.
    pub fn admits(&self, n: u64) -> (awaited: bool)
        requires
            self.wf(),
        ensures
            awaited == self@.admits(n),
    {
        n >= self.next_expected && n - self.next_expected < self.capacity as u64 && n < u64::MAX
            && !self.window.contains_key(&n)
    }

    /// Takes one fetch result.
    ///
    /// A block for the expected number is released at once, together with
    /// the held blocks that follow it without a gap. A block for a later
    /// number inside the window is held. A result without a block asks for
    /// the fetch to be run again and leaves the window as it is, so that a
    /// gap is never filled with a failure. A result for a number that is
    /// not awaited is dropped.
    pub fn accept(&mut self, result: FetchResult<T>) -> (answer: Sequenced<T>)
        requires
            old(self).wf(),
        ensures
            final(self).wf(),
            final(self)@ == old(self)@.accept(result).0,
            answer@ == old(self)@.accept(result).1,
    {
        proof {
            lemma_accept_inv(self@, result);
        }
        let n = result.block_number;
        if !self.admits(n) {
            return Sequenced::Rejected(n);
        }
        let task = FetchTask { block_number: n, attempt: result.attempt };
        match result.outcome {
            FetchOutcome::Block(block) => {
                if n == self.next_expected {
                    let released = self.release_from(n, block);
                    Sequenced::Released(released)
                } else {
                    self.window.insert(n, block);
                    assert(self@.held =~= old(self)@.held.insert(n, block));
                    Sequenced::Released(Vec::new())
                }
            },
            FetchOutcome::Absent => Sequenced::Retry(task.retry()),
            FetchOutcome::Transient => Sequenced::Retry(task.retry()),
            FetchOutcome::Fatal => Sequenced::Fatal(n),
        }
    }

    /// Releases the expected block `n` and the held blocks that follow it.
    fn release_from(&mut self, n: u64, block: T) -> (released: Vec<(u64, T)>)
        requires
            old(self).wf(),
            old(self)@.admits(n),
            n == old(self)@.next_expected,
        ensures
            final(self)@ == old(self)@.store(n, block).0,
            released@ == old(self)@.store(n, block).1,
    {
        let ghost before = self@;
        let ghost limit = before.limit();
        let mut released: Vec<(u64, T)> = Vec::new();
        released.push((n, block));
        let mut next: u64 = n + 1;
        loop
            invariant_except_break
                n < next <= limit,
                self.window@ == before.held.remove_keys(Set::new(|k: u64| n < k < next)),
            invariant
                before.inv(),
                before.next_expected == n,
                limit == before.limit(),
                n < u64::MAX,
                n < next <= limit,
                self.next_expected == n,
                self.capacity == before.capacity,
                forall|k: u64| n < k < next ==> #[trigger] before.held.contains_key(k),
                released@.len() == next - n,
                released@[0] == (n, block),
                forall|i: int|
                    0 < i < released@.len() ==> #[trigger] released@[i] == (
                        (n + i) as u64,
                        before.held[(n + i) as u64],
                    ),
            ensures
                !before.held.contains_key(next),
                self.window@ == before.held.remove_keys(Set::new(|k: u64| n < k < next)),
            decreases limit - next,
        {
            let ghost held_now = self.window@;
            match self.window.remove(&next) {
                Some(follower) => {
                    assert(before.held.contains_key(next));
                    assert(follower == before.held[next]);
                    released.push((next, follower));
                    assert(self.window@ =~= before.held.remove_keys(
                        Set::new(|k: u64| n < k < next + 1),
                    ));
                    next = next + 1;
                },
                None => {
                    assert(!held_now.contains_key(next));
                    assert(!before.held.contains_key(next));
                    break ;
                },
            }
        }
        self.next_expected = next;
        proof {
            lemma_contiguous_end(before.held, n + 1, limit, next as int);
            assert(released@ =~= before.run(n, block));
        }
        released
    }
}

} // verus!
