//! Download progress: the producer side that turns received byte counts into
//! percentages, and the consumer side that waits for completion.

use vstd::prelude::*;
use vstd::arithmetic::div_mod::{lemma_div_is_ordered, lemma_div_multiples_vanish};

verus! {

/// Whole percent of `total` that `received` bytes make, rounded down; a
/// download with nothing to fetch is complete.
pub open spec fn percent_of(received: nat, total: nat) -> nat {
    if total == 0 {
        100
    } else {
        (received * 100) / total
    }
}

/// Bytes counted after a chunk of `len` bytes arrives, never past `total`.
pub open spec fn after_chunk(received: nat, len: nat, total: nat) -> nat {
    if received + len > total {
        total
    } else {
        received + len
    }
}

/// Bytes counted after the chunks `chunks`, starting from nothing.
pub open spec fn received_after(total: nat, chunks: Seq<nat>) -> nat
    decreases chunks.len(),
{
    if chunks.len() == 0 {
        0
    } else {
        after_chunk(received_after(total, chunks.drop_last()), chunks.last(), total)
    }
}

/// The size of all the chunks together.
pub open spec fn size_of(chunks: Seq<nat>) -> nat
    decreases chunks.len(),
{
    if chunks.len() == 0 {
        0
    } else {
        size_of(chunks.drop_last()) + chunks.last()
    }
}

/// The percentage reported after chunk `k` of `chunks`.
pub open spec fn reported(total: nat, chunks: Seq<nat>, k: int) -> nat {
    percent_of(received_after(total, chunks.take(k + 1)), total)
}

proof fn lemma_received_is_capped_size(total: nat, chunks: Seq<nat>)
    ensures
        received_after(total, chunks) == if size_of(chunks) > total {
            total
        } else {
            size_of(chunks)
        },
    decreases chunks.len(),
{
    if chunks.len() > 0 {
        lemma_received_is_capped_size(total, chunks.drop_last());
    }
}

proof fn lemma_size_of_prefix(chunks: Seq<nat>, k: int, l: int)
    requires
        0 <= k <= l <= chunks.len(),
    ensures
        size_of(chunks.take(k)) <= size_of(chunks.take(l)),
    decreases l - k,
{
    if k < l {
        assert(chunks.take(l).drop_last() == chunks.take(l - 1));
        lemma_size_of_prefix(chunks, k, l - 1);
    }
}

proof fn lemma_percent_ordered(a: nat, b: nat, total: nat)
    requires
        a <= b <= total,
    ensures
        percent_of(a, total) <= percent_of(b, total),
        percent_of(b, total) <= 100,
        b == total ==> percent_of(b, total) == 100,
{
    if total > 0 {
        assert(a * 100 <= b * 100) by (nonlinear_arith)
            requires
                a <= b,
        ;
        assert(b * 100 <= total * 100) by (nonlinear_arith)
            requires
                b <= total,
        ;
        lemma_div_is_ordered((a * 100) as int, (b * 100) as int, total as int);
        lemma_div_is_ordered((b * 100) as int, (total * 100) as int, total as int);
        lemma_div_multiples_vanish(100, total as int);
        assert(total * 100 == total as int * 100);
    }
}

/// The percentages reported for one download never go down, never pass
/// 100, and once every byte has arrived the last one is exactly 100.
pub proof fn lemma_progress_monotone(total: nat, chunks: Seq<nat>)
    ensures
        forall|k: int, l: int|
            0 <= k <= l < chunks.len() ==> #[trigger] reported(total, chunks, k) <= #[trigger] reported(
                total,
                chunks,
                l,
            ),
        forall|k: int| 0 <= k < chunks.len() ==> #[trigger] reported(total, chunks, k) <= 100,
        chunks.len() > 0 && size_of(chunks) >= total ==> reported(
            total,
            chunks,
            chunks.len() - 1,
        ) == 100,
{
    assert forall|k: int, l: int| 0 <= k <= l < chunks.len() implies #[trigger] reported(
        total,
        chunks,
        k,
    ) <= #[trigger] reported(total, chunks, l) by {
        lemma_received_is_capped_size(total, chunks.take(k + 1));
        lemma_received_is_capped_size(total, chunks.take(l + 1));
        lemma_size_of_prefix(chunks, k + 1, l + 1);
        lemma_percent_ordered(
            received_after(total, chunks.take(k + 1)),
            received_after(total, chunks.take(l + 1)),
            total,
        );
    }
    assert forall|k: int| 0 <= k < chunks.len() implies #[trigger] reported(total, chunks, k) <= 100 by {
        lemma_received_is_capped_size(total, chunks.take(k + 1));
        lemma_percent_ordered(0, received_after(total, chunks.take(k + 1)), total);
    }
    if chunks.len() > 0 && size_of(chunks) >= total {
        let n = chunks.len() as int;
        assert(chunks.take(n) == chunks);
        lemma_received_is_capped_size(total, chunks);
        lemma_percent_ordered(0, total, total);
    }
}

/// The producer side of a download's progress: the bytes received so far
/// out of the announced total, and the last percentage handed out.
pub struct ProgressTracker {
    pub total: u64,
    pub received: u64,
    pub last: u8,
}

impl ProgressTracker {
    /// The count never passes the total and `last` is its percentage.
    pub open spec fn wf(&self) -> bool {
        &&& self.received <= self.total
        &&& self.last as nat == percent_of(self.received as nat, self.total as nat)
    }

    /// A tracker for a download of `total` bytes, nothing received yet.
    pub fn new(total: u64) -> (r: ProgressTracker)
        ensures
            r.wf(),
            r.total == total,
            r.received == 0,
            r.last as nat == percent_of(0, total as nat),
    {
        let last: u8 = if total == 0 {
            100
        } else {
            0
        };
        ProgressTracker { total, received: 0, last }
    }

    /// Counts a chunk of `len` bytes and returns the percentage to report:
    /// never lower than the one before, and 100 once all bytes are in.
    pub fn on_chunk(&mut self, len: u64) -> (p: u8)
        requires
            old(self).wf(),
        ensures
            final(self).wf(),
            final(self).total == old(self).total,
            final(self).received as nat == after_chunk(
                old(self).received as nat,
                len as nat,
                old(self).total as nat,
            ),
            p == final(self).last,
            p as nat == percent_of(final(self).received as nat, final(self).total as nat),
            old(self).last <= p <= 100,
            final(self).received == final(self).total ==> p == 100,
    {
        let room = self.total - self.received;
        if len > room {
            self.received = self.total;
        } else {
            self.received = self.received + len;
        }
        proof {
            lemma_percent_ordered(old(self).received as nat, self.received as nat, self.total as nat);
            lemma_percent_ordered(0, self.received as nat, self.total as nat);
        }
        let p: u8 = if self.total == 0 {
            100
        } else {
            ((self.received as u128 * 100) / (self.total as u128)) as u8
        };
        self.last = p;
        p
    }
}

/// Where the wait for a download stands.
#[derive(Clone, Copy, Debug, PartialEq, Eq, Structural)]
pub enum WaitStatus {
    /// More updates are to come.
    Waiting,
    /// The download reported completion.
    Finished,
    /// The download stopped before completion.
    Broken,
}

/// The consumer side: the latest percentage seen.
pub struct ProgressMonitor {
    pub latest: u8,
}

impl ProgressMonitor {
    /// Nothing seen yet.
    pub fn new() -> (r: ProgressMonitor)
        ensures
            r.latest == 0,
    {
        ProgressMonitor { latest: 0 }
    }

    /// Takes the next update, or `None` when the channel closed. A value of
    /// 100 or more finishes the wait; a close before that breaks it.
    pub fn observe(&mut self, update: Option<u8>) -> (r: WaitStatus)
        ensures
            match update {
                Some(v) => final(self).latest == v && (r == if v >= 100 {
                    WaitStatus::Finished
                } else {
                    WaitStatus::Waiting
                }),
                None => final(self).latest == old(self).latest && (r == if old(self).latest >= 100 {
                    WaitStatus::Finished
                } else {
                    WaitStatus::Broken
                }),
            },
    {
        match update {
            Some(v) => {
                self.latest = v;
                if v >= 100 {
                    WaitStatus::Finished
                } else {
                    WaitStatus::Waiting
                }
            },
            None => {
                if self.latest >= 100 {
                    WaitStatus::Finished
                } else {
                    WaitStatus::Broken
                }
            },
        }
    }
}

} // verus!
