//! Units of work exchanged between the fetch loop and the sequencer.

use vstd::prelude::*;

verus! {

/// One admitted fetch of a single block.
#[derive(Clone, Copy, Debug, PartialEq, Eq, Structural)]
pub struct FetchTask {
    pub block_number: u64,
    /// How many times this block was fetched before; 0 for the first fetch.
    pub attempt: u32,
}

/// What a finished fetch produced.
#[derive(Debug)]
pub enum FetchOutcome<T> {
    /// The node returned the block.
    Block(T),
    /// The node has not produced the block yet.
    Absent,
    /// The call failed in a way that a later call may not.
    Transient,
    /// The call failed for good.
    Fatal,
}

/// A finished fetch: the task that was run and what came of it.
#[derive(Debug)]
pub struct FetchResult<T> {
    pub block_number: u64,
    pub attempt: u32,
    pub outcome: FetchOutcome<T>,
}

impl FetchTask {
    /// The first fetch of `block_number`.
    pub fn first(block_number: u64) -> (task: FetchTask)
        ensures
            task == (FetchTask { block_number, attempt: 0 }),
    {
        FetchTask { block_number, attempt: 0 }
    }

    /// The task that fetches the same block once more.
    pub open spec fn again(self) -> FetchTask {
        FetchTask {
            block_number: self.block_number,
            attempt: if self.attempt < u32::MAX {
                (self.attempt + 1) as u32
            } else {
                u32::MAX
            },
        }
    }

    /// The task that fetches the same block once more; the attempt count
    /// stops growing at `u32::MAX`.
    pub fn retry(self) -> (task: FetchTask)
        ensures
            task == self.again(),
    {
        let attempt: u32 = if self.attempt < u32::MAX {
            self.attempt + 1
        } else {
            u32::MAX
        };
        FetchTask { block_number: self.block_number, attempt }
    }
}

impl<T> FetchResult<T> {
    /// The task that this result answers.
    pub open spec fn task(self) -> FetchTask {
        FetchTask { block_number: self.block_number, attempt: self.attempt }
    }

    /// The result of `task` with the given outcome.
    pub fn of(task: FetchTask, outcome: FetchOutcome<T>) -> (result: FetchResult<T>)
        ensures
            result.task() == task,
            result.outcome == outcome,
    {
        FetchResult { block_number: task.block_number, attempt: task.attempt, outcome }
    }
}

} // verus!
