//! Bookkeeping of the progressive renderer: how many samples each view traces
//! in a frame, when its accumulated image starts over, and how the GPU
//! buffers grow.

use vstd::prelude::*;

verus! {

/// `n` is 1, 2, 4, 8, ...
pub open spec fn is_power_of_two(n: int) -> bool
    decreases n,
{
    if n <= 0 {
        false
    } else if n == 1 {
        true
    } else {
        n % 2 == 0 && is_power_of_two(n / 2)
    }
}

/// The smallest power of two that is at least `n`.
pub fn next_power_of_two(n: u64) -> (p: u64)
    requires
        n <= 0x8000_0000_0000_0000,
    ensures
        is_power_of_two(p as int),
        p >= n,
        p == 1 || p / 2 < n,
{
    let mut p: u64 = 1;
    while p < n
        invariant
            p >= 1,
            is_power_of_two(p as int),
            p == 1 || p / 2 < n,
            n <= 0x8000_0000_0000_0000,
        decreases 2 * n - p,
    {
        assert(is_power_of_two((p * 2) as int));
        p = p * 2;
    }
    p
}

/// The capacity a buffer of capacity `cap` needs to hold `len` bytes: `None`
/// when it is large enough, otherwise the next power of two (the buffer is
/// then created anew).
pub fn grown_capacity(len: u64, cap: u64) -> (r: Option<u64>)
    requires
        len <= 0x8000_0000_0000_0000,
    ensures
        len <= cap ==> r is None,
        len > cap ==> (r matches Some(c) && c >= len && is_power_of_two(c as int) && (c == 1 || c
            / 2 < len)),
{
    if len > cap {
        Some(next_power_of_two(len))
    } else {
        None
    }
}

/// The samples one frame adds to a view: `count` of them, numbered from `first`.
#[derive(Clone, Copy, Debug, PartialEq, Eq, Structural)]
pub struct SampleBatch {
    pub first: u32,
    pub count: u32,
}

/// How many samples a frame traces: `spp`, but never past `max_samples` and
/// at least one; nothing once `samples` has reached `max_samples`.
pub open spec fn batch_size(samples: int, spp: int, max_samples: int) -> int {
    if max_samples - samples < spp {
        max_samples - samples
    } else if spp < 1 {
        1
    } else {
        spp
    }
}

/// What `plan` does to (view hash, samples): a changed view starts over from
/// zero samples; a view that has not reached `max_samples` gets a batch.
pub open spec fn plan_step(hash: u64, samples: u32, new_hash: u64, spp: u32, max_samples: u32) -> (
    u64,
    u32,
    Option<SampleBatch>,
) {
    let start = if new_hash != hash {
        0u32
    } else {
        samples
    };
    if start >= max_samples {
        (new_hash, start, None)
    } else {
        let k = batch_size(start as int, spp as int, max_samples as int);
        (new_hash, (start + k) as u32, Some(SampleBatch { first: start, count: k as u32 }))
    }
}

/// The accumulated image of one view: which view it shows (a hash of
/// everything that affects it) and how many samples it holds.
pub struct Accumulation {
    hash: u64,
    samples: u32,
}

impl Accumulation {
    /// The hash of the view this image shows.
    pub closed spec fn view_hash(&self) -> u64 {
        self.hash
    }

    /// The number of samples accumulated so far.
    pub closed spec fn sample_count(&self) -> u32 {
        self.samples
    }

    /// A fresh, empty image.
    pub fn new() -> (a: Accumulation)
        ensures
            a.view_hash() == 0,
            a.sample_count() == 0,
    {
        Accumulation { hash: 0, samples: 0 }
    }

    /// The number of samples accumulated so far.
    pub fn samples(&self) -> (s: u32)
        ensures
            s == self.sample_count(),
    {
        self.samples
    }

    /// Plans this frame's samples for a view with hash `view_hash`: a changed
    /// view starts over; returns the batch to trace, if any, and counts it.
    pub fn plan(&mut self, view_hash: u64, spp: u32, max_samples: u32) -> (b: Option<SampleBatch>)
        ensures
            (final(self).view_hash(), final(self).sample_count(), b) == plan_step(
                old(self).view_hash(),
                old(self).sample_count(),
                view_hash,
                spp,
                max_samples,
            ),
    {
        if view_hash != self.hash {
            self.hash = view_hash;
            self.samples = 0;
        }
        if self.samples >= max_samples {
            return None;
        }
        let left = max_samples - self.samples;
        let mut count = if spp < left {
            spp
        } else {
            left
        };
        if count < 1 {
            count = 1;
        }
        let first = self.samples;
        self.samples = first + count;
        Some(SampleBatch { first, count })
    }
}

/// Law: a plan never takes a view past `max_samples` unless it was already
/// there, every batch holds at least one sample, and a batch continues
/// exactly where the accumulated samples ended.
pub proof fn lemma_plan_bounded(hash: u64, samples: u32, new_hash: u64, spp: u32, max_samples: u32)
    ensures
        ({
            let (h, s, b) = plan_step(hash, samples, new_hash, spp, max_samples);
            &&& h == new_hash
            &&& (b is Some ==> s <= max_samples)
            &&& (b is None ==> s == if new_hash != hash {
                0
            } else {
                samples
            })
            &&& (b matches Some(batch) ==> batch.count >= 1 && batch.first + batch.count == s)
            &&& (b is None <==> (if new_hash != hash {
                0
            } else {
                samples
            }) >= max_samples)
        }),
{
}

/// Law: a changed view is planned as a fresh one, whatever the old view had
/// accumulated.
pub proof fn lemma_changed_view_starts_over(
    hash: u64,
    samples: u32,
    new_hash: u64,
    spp: u32,
    max_samples: u32,
)
    requires
        new_hash != hash,
    ensures
        plan_step(hash, samples, new_hash, spp, max_samples) == plan_step(
            new_hash,
            0,
            new_hash,
            spp,
            max_samples,
        ),
{
}

/// Law: the batch a view gets: it starts at the samples already held and
/// counts `spp`, but no more than the samples left and at least one; a view
/// that holds `max_samples` gets none. A changed view starts at zero.
pub proof fn lemma_batch(hash: u64, samples: u32, new_hash: u64, spp: u32, max_samples: u32)
    ensures
        ({
            let held: int = if new_hash != hash {
                0
            } else {
                samples as int
            };
            let left = max_samples - held;
            let (h, s, b) = plan_step(hash, samples, new_hash, spp, max_samples);
            &&& h == new_hash
            &&& held >= max_samples ==> b is None && s == held
            &&& held < max_samples ==> b == Some(
                SampleBatch {
                    first: held as u32,
                    count: (if spp > left {
                        left
                    } else if spp == 0 {
                        1
                    } else {
                        spp as int
                    }) as u32,
                },
            ) && s == held + b->0.count
        }),
{
}

/// Law: with the view and the limits unchanged, a view reaches
/// `max_samples` after finitely many plans and then gets no more samples;
/// each plan adds at least one sample until then.
pub proof fn lemma_plan_progress(hash: u64, samples: u32, spp: u32, max_samples: u32)
    requires
        samples <= max_samples,
    ensures
        ({
            let (h, s, b) = plan_step(hash, samples, hash, spp, max_samples);
            &&& h == hash
            &&& samples <= s <= max_samples
            &&& (samples < max_samples ==> s > samples)
            &&& (samples == max_samples ==> s == samples && b is None)
        }),
{
}

/// The samples of an unchanged view after `frames` plans, starting from `samples`.
pub open spec fn samples_after(hash: u64, samples: u32, frames: nat, spp: u32, max_samples: u32) -> u32
    decreases frames,
{
    if frames == 0 {
        samples
    } else {
        plan_step(hash, samples_after(hash, samples, (frames - 1) as nat, spp, max_samples), hash, spp, max_samples).1
    }
}

/// Law: an unchanged view with at least one sample per frame holds
/// min(max_samples, samples + frames * spp) samples after `frames` frames: it
/// converges in (max_samples - samples) / spp frames, rounded up, and the
/// renderer then goes idle for it.
pub proof fn lemma_converges(hash: u64, samples: u32, frames: nat, spp: u32, max_samples: u32)
    requires
        samples <= max_samples,
        spp >= 1,
    ensures
        samples_after(hash, samples, frames, spp, max_samples) == if samples + frames * spp
            < max_samples {
            samples + frames * spp
        } else {
            max_samples as int
        },
    decreases frames,
{
    if frames > 0 {
        let f1 = (frames - 1) as nat;
        lemma_converges(hash, samples, f1, spp, max_samples);
        assert(samples + frames * spp == samples + f1 * spp + spp) by (nonlinear_arith)
            requires
                frames == f1 + 1,
        ;
        assert(f1 * spp >= 0) by (nonlinear_arith);
        let v = samples_after(hash, samples, f1, spp, max_samples);
        assert(v <= max_samples);
        let k = batch_size(v as int, spp as int, max_samples as int);
        assert(samples_after(hash, samples, frames, spp, max_samples) == plan_step(
            hash,
            v,
            hash,
            spp,
            max_samples,
        ).1);
        if v < max_samples {
            assert(v + k <= max_samples);
            assert(plan_step(hash, v, hash, spp, max_samples).1 == (v + k) as u32);
            if samples + f1 * spp < max_samples {
                assert(v == samples + f1 * spp);
            } else {
                assert(v == max_samples);
            }
        } else {
            assert(plan_step(hash, v, hash, spp, max_samples).1 == v);
        }
    } else {
        assert(frames * spp == 0) by (nonlinear_arith)
            requires
                frames == 0,
        ;
    }
}

} // verus!
