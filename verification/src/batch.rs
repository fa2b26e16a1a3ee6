//! The batched persistence layer: partitions a run of records into
//! fixed-size chunks and accounts for what the sink has durably committed.
//!
//! The writer itself never touches the sink.  It hands out the half-open
//! index range of the next chunk, and is told afterwards whether the sink
//! committed it.  Chunk boundaries are deterministic: every chunk but the
//! last holds exactly `chunk_size` records, a failure freezes the committed
//! count, and a completed run has performed exactly `ceil(total /
//! chunk_size)` write calls covering every record once.

use vstd::arithmetic::div_mod::{
    lemma_basic_div_specific_divisor, lemma_fundamental_div_mod, lemma_fundamental_div_mod_converse,
    lemma_mod_bound,
};
use vstd::prelude::*;

verus! {

/// Default number of records per write call.
pub const DEFAULT_CHUNK_SIZE: usize = 10000;

/// How many write calls a run of `total` records takes with chunks of
/// `size`: `total / size`, rounded up.
pub open spec fn num_chunks(total: int, size: int) -> int {
    (total + size - 1) / size
}

/// Law: `num_chunks` is the ceiling of `total / size` — the only chunk
/// count whose full chunks stay under the record count and whose last chunk
/// reaches it.
pub proof fn lemma_num_chunks_is_ceiling(total: int, size: int)
    requires
        1 <= size,
        1 <= total,
    ensures
        (num_chunks(total, size) - 1) * size < total <= num_chunks(total, size) * size,
{
    let x = total + size - 1;
    lemma_fundamental_div_mod(x, size);
    lemma_mod_bound(x, size);
    let q = x / size;
    let r = x % size;
    assert(q * size == size * q) by (nonlinear_arith);
    assert(total == q * size + r - size + 1);
    assert((q - 1) * size == q * size - size) by (nonlinear_arith);
}

/// Where a batched run stands.
#[derive(Clone, Copy, Debug, PartialEq, Eq, Structural)]
pub enum WriteStatus {
    /// Records remain to be written.
    InProgress,
    /// Every record was committed.
    Done,
    /// The sink refused a chunk; the run stopped there.
    Failed,
}

/// Progress accounting for one batched run over `total` records.
pub struct BatchWriter {
    /// How many records the whole run must write.
    pub total: usize,
    /// Records per write call; the last call may carry fewer.
    pub chunk_size: usize,
    /// Records committed by the sink so far.
    pub committed: usize,
    /// Write calls the sink has acknowledged so far.
    pub chunks_done: usize,
    /// Where the run stands.
    pub status: WriteStatus,
}

impl BatchWriter {
    /// The accounting invariant: the committed count is always the sum of
    /// the acknowledged chunk sizes, and a finished run committed everything
    /// in exactly `num_chunks` calls.
    pub open spec fn wf(self) -> bool {
        &&& 1 <= self.chunk_size
        &&& self.committed <= self.total
        &&& (self.status is InProgress ==> self.committed == self.chunks_done * self.chunk_size
            && self.committed < self.total)
        &&& (self.status is Done ==> self.committed == self.total && self.chunks_done
            == num_chunks(self.total as int, self.chunk_size as int))
        &&& (self.status is Failed ==> self.committed == self.chunks_done * self.chunk_size)
        &&& self.chunks_done <= self.committed || self.chunks_done == 0
    }

    /// Start a run over `total` records.  A run over no records is complete
    /// at once: an empty write batch is a no-op, not an error.
    pub fn new(total: usize, chunk_size: usize) -> (w: BatchWriter)
        requires
            1 <= chunk_size,
        ensures
            w.wf(),
            w.total == total,
            w.chunk_size == chunk_size,
            w.committed == 0,
            w.chunks_done == 0,
            w.status == (if total == 0 {
                WriteStatus::Done
            } else {
                WriteStatus::InProgress
            }),
    {
        let status: WriteStatus = if total == 0 {
            proof {
                lemma_basic_div_specific_divisor(chunk_size as int);
                assert(num_chunks(0, chunk_size as int) == 0);
            }
            WriteStatus::Done
        } else {
            WriteStatus::InProgress
        };
        BatchWriter { total, chunk_size, committed: 0, chunks_done: 0, status }
    }

    /// The half-open record range `[start, end)` the next write call must
    /// cover, or `None` when the run is over.  Every chunk starts where the
    /// committed records end and is full unless the run's tail is shorter.
    pub fn next_chunk(&self) -> (r: Option<(usize, usize)>)
        requires
            self.wf(),
        ensures
            match r {
                Some(range) => {
                    &&& self.status is InProgress
                    &&& range.0 == self.committed
                    &&& range.1 == (if self.committed + self.chunk_size <= self.total {
                        self.committed + self.chunk_size
                    } else {
                        self.total as int
                    })
                    &&& range.0 < range.1 <= self.total
                },
                None => !(self.status is InProgress),
            },
    {
        match self.status {
            WriteStatus::InProgress => {
                let end: usize = if self.total - self.committed >= self.chunk_size {
                    self.committed + self.chunk_size
                } else {
                    self.total
                };
                Some((self.committed, end))
            },
            _ => None,
        }
    }

    /// The sink acknowledged the pending chunk: account its records and
    /// finish the run when they were the last ones.
    pub fn record_success(&mut self)
        requires
            old(self).wf(),
            old(self).status is InProgress,
        ensures
            final(self).wf(),
            final(self).total == old(self).total,
            final(self).chunk_size == old(self).chunk_size,
            final(self).chunks_done == old(self).chunks_done + 1,
            final(self).committed == (if old(self).committed + old(self).chunk_size <= old(
                self,
            ).total {
                old(self).committed + old(self).chunk_size
            } else {
                old(self).total as int
            }),
            final(self).status == (if final(self).committed == final(self).total {
                WriteStatus::Done
            } else {
                WriteStatus::InProgress
            }),
    {
        proof {
            assert(self.chunks_done <= self.chunks_done * self.chunk_size) by (nonlinear_arith)
                requires
                    0 <= self.chunks_done,
                    1 <= self.chunk_size,
            ;
        }
        let end: usize = if self.total - self.committed >= self.chunk_size {
            self.committed + self.chunk_size
        } else {
            self.total
        };
        proof {
            let k = self.chunks_done as int;
            let c = self.chunk_size as int;
            let t = self.total as int;
            assert((k + 1) * c == k * c + c) by (nonlinear_arith);
            if end == self.total {
                let r = t - 1 - k * c;
                assert(t + c - 1 == (k + 1) * c + r);
                lemma_fundamental_div_mod_converse(t + c - 1, c, k + 1, r);
                assert(num_chunks(t, c) == k + 1);
            }
        }
        self.committed = end;
        self.chunks_done = self.chunks_done + 1;
        if end == self.total {
            self.status = WriteStatus::Done;
        }
    }

    /// The sink refused the pending chunk: freeze the run.  The committed
    /// count keeps the sum of the chunks that succeeded before the failure;
    /// no later chunk is ever attempted.
    pub fn record_failure(&mut self)
        requires
            old(self).wf(),
            old(self).status is InProgress,
        ensures
            final(self).wf(),
            final(self).total == old(self).total,
            final(self).chunk_size == old(self).chunk_size,
            final(self).chunks_done == old(self).chunks_done,
            final(self).committed == old(self).committed,
            final(self).status is Failed,
    {
        self.status = WriteStatus::Failed;
    }

    /// Law: a completed run has committed every one of its records, and has
    /// performed exactly `ceil(total / chunk_size)` successful write calls,
    /// so the sum of the per-chunk committed counts it reported is the
    /// record count itself.
    pub proof fn lemma_run_complete(self)
        requires
            self.wf(),
            self.status is Done,
        ensures
            self.committed == self.total,
            self.chunks_done == num_chunks(self.total as int, self.chunk_size as int),
    {
    }
}

} // verus!
