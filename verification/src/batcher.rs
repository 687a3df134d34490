//! Batching captured sample chunks for the meters: chunks gather until a
//! batch is large enough or old enough, then leave as one buffer, and the
//! emptied buffers are kept for reuse.
use vstd::prelude::*;

verus! {

/// The emptied buffers kept for reuse, at most.
pub const MAX_RECYCLED_BUFFERS: usize = 4;

/// The samples of the meter tap waiting to be sent.
pub struct SampleBatcher<T> {
    /// The samples at which a batch is due.
    pub target_samples: usize,
    /// The samples gathered, counted up to `usize::MAX`.
    pub total_samples: usize,
    pub chunks: Vec<Vec<T>>,
    pub recycle: Vec<Vec<T>>,
}

/// The contents of a list of chunks.
pub open spec fn chunk_views<T>(chunks: Seq<Vec<T>>) -> Seq<Seq<T>> {
    chunks.map_values(|c: Vec<T>| c@)
}

/// `total + n`, capped at `usize::MAX`.
pub open spec fn counted(total: usize, n: usize) -> usize {
    if total + n > usize::MAX {
        usize::MAX
    } else {
        (total + n) as usize
    }
}

/// Keeps `chunk` for reuse while fewer than the maximum are kept.
fn stash_recycle<T>(recycle: &mut Vec<Vec<T>>, chunk: Vec<T>)
    ensures
        old(recycle)@.len() < MAX_RECYCLED_BUFFERS ==> final(recycle)@ == old(recycle)@.push(chunk),
        old(recycle)@.len() >= MAX_RECYCLED_BUFFERS ==> final(recycle)@ == old(recycle)@,
{
    if recycle.len() < MAX_RECYCLED_BUFFERS {
        recycle.push(chunk);
    }
}

impl<T> SampleBatcher<T> {
    /// An empty batcher whose batches are due at `target_samples`.
    pub fn new(target_samples: usize) -> (r: SampleBatcher<T>)
        ensures
            r.target_samples == target_samples,
            r.total_samples == 0,
            r.chunks@.len() == 0,
            r.recycle@.len() == 0,
    {
        SampleBatcher { target_samples, total_samples: 0, chunks: Vec::new(), recycle: Vec::new() }
    }

    /// Whether no samples are waiting.
    pub fn is_empty(&self) -> (r: bool)
        ensures
            r == (self.total_samples == 0),
    {
        self.total_samples == 0
    }

    /// Adds a chunk.
    pub fn push(&mut self, chunk: Vec<T>)
        ensures
            final(self).total_samples == counted(old(self).total_samples, chunk@.len() as usize),
            final(self).chunks@ == old(self).chunks@.push(chunk),
            final(self).recycle@ == old(self).recycle@,
            final(self).target_samples == old(self).target_samples,
    {
        self.total_samples = self.total_samples.saturating_add(chunk.len());
        self.chunks.push(chunk);
    }

    /// Whether a batch is due by size.
    pub fn should_flush(&self) -> (r: bool)
        ensures
            r == (self.total_samples >= self.target_samples),
    {
        self.total_samples >= self.target_samples
    }

    /// A buffer for a batch: a kept one, emptied, else a new one.
    fn reuse_buffer(&mut self, needed: usize) -> (r: Vec<T>)
        ensures
            r@.len() == 0,
            final(self).recycle@.len() == if old(self).recycle@.len() > 0 {
                old(self).recycle@.len() - 1
            } else {
                0
            },
            final(self).recycle@ == old(self).recycle@.take(final(self).recycle@.len() as int),
            final(self).chunks@ == old(self).chunks@,
            final(self).total_samples == old(self).total_samples,
            final(self).target_samples == old(self).target_samples,
    {
        match self.recycle.pop() {
            Some(recycled) => {
                let mut recycled = recycled;
                recycled.clear();
                recycled.reserve(needed);
                recycled
            },
            None => Vec::with_capacity(needed),
        }
    }

    /// Takes the waiting samples as one batch, in the order they came;
    /// none when no samples wait.  A lone chunk leaves as it is; otherwise
    /// the chunks are joined and their emptied buffers kept for reuse.
    pub fn take(&mut self) -> (r: Option<Vec<T>>)
        ensures
            old(self).total_samples == 0 ==> r is None && final(self).chunks@ == old(self).chunks@
                && final(self).recycle@ == old(self).recycle@ && final(self).total_samples == 0,
            old(self).total_samples != 0 ==> r is Some && r->0@ == chunk_views(
                old(self).chunks@,
            ).flatten() && final(self).chunks@.len() == 0 && final(self).total_samples == 0,
            final(self).recycle@.len() <= if old(self).recycle@.len() > MAX_RECYCLED_BUFFERS {
                old(self).recycle@.len()
            } else {
                MAX_RECYCLED_BUFFERS as nat
            },
            final(self).target_samples == old(self).target_samples,
    {
        if self.total_samples == 0 {
            return None;
        }
        let needed = self.total_samples;
        self.total_samples = 0;
        if self.chunks.len() == 1 {
            let ghost only = self.chunks@;
            let lone = self.chunks.pop();
            proof {
                assert(chunk_views(only).drop_first() =~= Seq::<Seq<T>>::empty());
                assert(chunk_views(only).flatten() =~= only[0]@ + Seq::<Seq<T>>::empty().flatten());
            }
            return lone;
        }
        let ghost all = chunk_views(self.chunks@);
        let mut batch = self.reuse_buffer(needed);
        let ghost start_recycle = self.recycle@.len();
        let ghost target = self.target_samples;
        proof {
            assert(batch@ + all.flatten() =~= all.flatten());
        }
        while self.chunks.len() > 0
            invariant
                batch@ + chunk_views(self.chunks@).flatten() == all.flatten(),
                self.total_samples == 0,
                self.target_samples == target,
                self.recycle@.len() <= if start_recycle > MAX_RECYCLED_BUFFERS {
                    start_recycle
                } else {
                    MAX_RECYCLED_BUFFERS as nat
                },
            decreases self.chunks@.len(),
        {
            let ghost rest = chunk_views(self.chunks@);
            let mut chunk = self.chunks.remove(0);
            proof {
                assert(rest[0] == chunk@);
                assert(chunk_views(self.chunks@) =~= rest.drop_first());
            }
            let ghost before = batch@;
            batch.append(&mut chunk);
            proof {
                assert(rest.flatten() == rest[0] + rest.drop_first().flatten());
                assert(batch@ + chunk_views(self.chunks@).flatten() =~= before + rest.flatten());
            }
            stash_recycle(&mut self.recycle, chunk);
        }
        proof {
            assert(chunk_views(self.chunks@) =~= Seq::<Seq<T>>::empty());
            assert(batch@ + Seq::<T>::empty() =~= batch@);
        }
        Some(batch)
    }
}

/// What the meter tap sends for a captured packet: the waiting batch
/// first when the packet's format differs from the current one; whether,
/// with the packet's samples added, a batch is due by size or by time; and
/// then that batch, unless nothing waits.
pub fn tap_packet<T>(
    batcher: &mut SampleBatcher<T>,
    format_changed: bool,
    samples: Vec<T>,
    time_due: bool,
) -> (r: (Option<Vec<T>>, bool, Option<Vec<T>>))
    ensures
        ({
            let early = old(batcher).total_samples != 0 && format_changed;
            let mid = if early {
                Seq::<Seq<T>>::empty()
            } else {
                chunk_views(old(batcher).chunks@)
            };
            let mid_total = if early {
                0
            } else {
                old(batcher).total_samples
            };
            let gathered = if samples@.len() > 0 {
                mid.push(samples@)
            } else {
                mid
            };
            let gathered_total = if samples@.len() > 0 {
                counted(mid_total, samples@.len() as usize)
            } else {
                mid_total
            };
            let due = gathered_total >= old(batcher).target_samples || time_due;
            &&& early ==> r.0 is Some && r.0->0@ == chunk_views(old(batcher).chunks@).flatten()
            &&& !early ==> r.0 is None
            &&& r.1 == due
            &&& (due && gathered_total != 0) ==> r.2 is Some && r.2->0@ == gathered.flatten()
                && final(batcher).total_samples == 0
            &&& !(due && gathered_total != 0) ==> r.2 is None && final(batcher).total_samples
                == gathered_total && chunk_views(final(batcher).chunks@) == gathered
            &&& final(batcher).target_samples == old(batcher).target_samples
        }),
{
    let early = if !batcher.is_empty() && format_changed {
        batcher.take()
    } else {
        None
    };
    proof {
        if early is Some {
            assert(chunk_views(batcher.chunks@) =~= Seq::<Seq<T>>::empty());
        }
    }
    if samples.len() > 0 {
        let ghost before = batcher.chunks@;
        batcher.push(samples);
        proof {
            assert(chunk_views(batcher.chunks@) =~= chunk_views(before).push(
                batcher.chunks@[before.len() as int]@,
            ));
        }
    }
    let due = batcher.should_flush() || time_due;
    let late = if due {
        batcher.take()
    } else {
        None
    };
    (early, due, late)
}

/// What the meter tap sends when no packet came: the waiting batch once it
/// is due by time.
pub fn tap_idle<T>(batcher: &mut SampleBatcher<T>, time_due: bool) -> (r: Option<Vec<T>>)
    ensures
        (time_due && old(batcher).total_samples != 0) ==> r is Some && r->0@ == chunk_views(
            old(batcher).chunks@,
        ).flatten() && final(batcher).total_samples == 0,
        !(time_due && old(batcher).total_samples != 0) ==> r is None && final(batcher).chunks@
            == old(batcher).chunks@ && final(batcher).total_samples == old(batcher).total_samples,
        final(batcher).target_samples == old(batcher).target_samples,
{
    if time_due {
        batcher.take()
    } else {
        None
    }
}

} // verus!
