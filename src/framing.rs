//! Block framing for block-based convolution.
//!
//! A `BlockFramer` collects incoming samples into blocks of `block_size`
//! samples. Once a block is complete it is handed out for processing, and the
//! processed block that comes back is played out one sample per incoming
//! sample while the next block fills. The stream therefore leaves the framer
//! delayed by exactly one block: the output at stream time `t` is element
//! `t % block_size` of the processed block `t / block_size - 1`, and silence
//! during the first block.
//!
//! The stream is cut into disjoint blocks: once a full block has been
//! exchanged, the next one starts empty, so one block transform serves
//! `block_size` samples.

use vstd::prelude::*;

verus! {

/// Per-sample front end of a block processor.
pub struct BlockFramer<T> {
    block_size: usize,
    silence: T,
    /// Samples of the block being filled.
    pending: Vec<T>,
    /// The processed block being played out.
    playback: Vec<T>,
    /// Every sample received since construction or the last reset.
    received: Ghost<Seq<T>>,
    /// Every processed block delivered since construction or the last reset.
    delivered: Ghost<Seq<Seq<T>>>,
}

impl<T: Copy> BlockFramer<T> {
    pub closed spec fn spec_block_size(&self) -> nat {
        self.block_size as nat
    }

    /// The value played out before any processed block is available.
    pub closed spec fn spec_silence(&self) -> T {
        self.silence
    }

    /// The input stream since construction or the last reset.
    pub closed spec fn received(&self) -> Seq<T> {
        self.received@
    }

    /// The processed blocks delivered since construction or the last reset.
    pub closed spec fn delivered(&self) -> Seq<Seq<T>> {
        self.delivered@
    }

    pub closed spec fn wf(&self) -> bool {
        let b = self.block_size as int;
        &&& self.block_size > 0
        &&& self.playback@.len() == b
        &&& self.received@.len() == self.delivered@.len() * b + self.pending@.len()
        &&& self.pending@.len() <= b
        &&& self.pending@ == self.received@.subrange(
            self.delivered@.len() * b,
            self.received@.len() as int,
        )
        &&& forall|k: int| 0 <= k < self.delivered@.len() ==> #[trigger] self.delivered@[k].len() == b
        &&& if self.delivered@.len() == 0 {
            self.playback@ == Seq::new(self.block_size as nat, |i: int| self.silence)
        } else {
            self.playback@ == self.delivered@.last()
        }
    }

    /// Samples received into the block being filled.
    pub open spec fn pending_len(&self) -> int {
        self.received().len() - self.delivered().len() * self.spec_block_size()
    }

    /// Stream position at which block `k` starts.
    pub open spec fn block_start(&self, k: int) -> int {
        k * self.spec_block_size()
    }

    /// The sample played out at stream time `t`: silence during the first
    /// block, then the processed blocks in order, one block late.
    pub open spec fn output_at(&self, t: int) -> T {
        let b = self.spec_block_size() as int;
        if t < b {
            self.spec_silence()
        } else {
            self.delivered()[t / b - 1][t % b]
        }
    }

    /// A framer for blocks of `block_size` samples that plays `silence` until
    /// the first processed block arrives.
    pub fn new(block_size: usize, silence: T) -> (r: Self)
        requires
            block_size > 0,
        ensures
            r.wf(),
            r.spec_block_size() == block_size,
            r.spec_silence() == silence,
            r.received() == Seq::<T>::empty(),
            r.delivered() == Seq::<Seq<T>>::empty(),
    {
        let mut playback: Vec<T> = Vec::with_capacity(block_size);
        let mut i: usize = 0;
        while i < block_size
            invariant
                i <= block_size,
                playback@ == Seq::new(i as nat, |j: int| silence),
            decreases block_size - i,
        {
            playback.push(silence);
            i = i + 1;
        }
        let pending: Vec<T> = Vec::with_capacity(block_size);
        assert(pending@ =~= Seq::<T>::empty().subrange(0, 0));
        assert(playback@ =~= Seq::new(block_size as nat, |j: int| silence));
        BlockFramer {
            block_size,
            silence,
            pending,
            playback,
            received: Ghost(Seq::empty()),
            delivered: Ghost(Seq::empty()),
        }
    }

    /// Number of samples per block; the framer delays the stream by this much.
    pub fn block_size(&self) -> (r: usize)
        ensures
            r == self.spec_block_size(),
    {
        self.block_size
    }

    /// Latency of the framed stream, in samples.
    pub fn latency(&self) -> (r: usize)
        ensures
            r == self.spec_block_size(),
    {
        self.block_size
    }

    /// Whether the block being filled is complete and must be exchanged
    /// before the next sample can be taken.
    pub fn needs_block(&self) -> (r: bool)
        requires
            self.wf(),
        ensures
            r == (self.pending_len() == self.spec_block_size()),
    {
        self.pending.len() == self.block_size
    }

    /// The completed input block, while it waits to be exchanged.
    pub fn pending_block(&self) -> (r: &Vec<T>)
        requires
            self.wf(),
            self.pending_len() == self.spec_block_size(),
        ensures
            r@ == self.received().subrange(
                self.block_start(self.delivered().len() as int),
                self.block_start(self.delivered().len() + 1int),
            ),
    {
        proof {
            let b = self.block_size as int;
            let n = self.delivered@.len() as int;
            assert((n + 1) * b == n * b + b) by (nonlinear_arith);
        }
        &self.pending
    }

    /// Takes one input sample and returns the sample played out at the same
    /// stream time.
    pub fn push_sample(&mut self, input: T) -> (r: T)
        requires
            old(self).wf(),
            old(self).pending_len() < old(self).spec_block_size(),
        ensures
            final(self).wf(),
            final(self).spec_block_size() == old(self).spec_block_size(),
            final(self).spec_silence() == old(self).spec_silence(),
            final(self).received() == old(self).received().push(input),
            final(self).delivered() == old(self).delivered(),
            r == old(self).output_at(old(self).received().len() as int),
    {
        let ghost b = self.block_size as int;
        let ghost t = self.received@.len() as int;
        let ghost n = self.delivered@.len() as int;
        let ghost q = self.pending@.len() as int;
        let out = self.playback[self.pending.len()];
        self.pending.push(input);
        self.received = Ghost(self.received@.push(input));
        proof {
            assert(self.pending@ =~= self.received@.subrange(n * b, self.received@.len() as int));
            if n > 0 {
                vstd::arithmetic::div_mod::lemma_fundamental_div_mod_converse(t, b, n, q);
                assert(t >= b) by (nonlinear_arith)
                    requires
                        t == n * b + q,
                        n >= 1,
                        q >= 0,
                        b > 0,
                ;
            } else {
                assert(n * b == 0) by (nonlinear_arith)
                    requires
                        n == 0,
                ;
            }
        }
        out
    }

    /// Hands out the completed input block and installs `processed` as the
    /// block to play out next.
    pub fn exchange_block(&mut self, processed: Vec<T>) -> (r: Vec<T>)
        requires
            old(self).wf(),
            old(self).pending_len() == old(self).spec_block_size(),
            processed@.len() == old(self).spec_block_size(),
        ensures
            final(self).wf(),
            final(self).spec_block_size() == old(self).spec_block_size(),
            final(self).spec_silence() == old(self).spec_silence(),
            final(self).received() == old(self).received(),
            final(self).delivered() == old(self).delivered().push(processed@),
            r@ == old(self).received().subrange(
                old(self).block_start(old(self).delivered().len() as int),
                old(self).block_start(old(self).delivered().len() + 1int),
            ),
    {
        let ghost b = self.block_size as int;
        let ghost n = self.delivered@.len() as int;
        proof {
            assert((n + 1) * b == n * b + b) by (nonlinear_arith);
        }
        let mut block = processed;
        std::mem::swap(&mut self.playback, &mut block);
        block.clear();
        std::mem::swap(&mut self.pending, &mut block);
        self.delivered = Ghost(self.delivered@.push(processed@));
        proof {
            assert(self.pending@ =~= self.received@.subrange(
                self.delivered@.len() * b,
                self.received@.len() as int,
            ));
            assert forall|k: int| 0 <= k < self.delivered@.len() implies #[trigger] self.delivered@[k].len() == b by {
                if k < n {
                    assert(self.delivered@[k] == old(self).delivered@[k]);
                }
            }
        }
        block
    }

    /// Drops the partial input block and the pending output, so that the
    /// stream starts afresh with one block of silence.
    pub fn reset(&mut self)
        requires
            old(self).wf(),
        ensures
            final(self).wf(),
            final(self).spec_block_size() == old(self).spec_block_size(),
            final(self).spec_silence() == old(self).spec_silence(),
            final(self).received() == Seq::<T>::empty(),
            final(self).delivered() == Seq::<Seq<T>>::empty(),
    {
        self.pending.clear();
        let mut i: usize = 0;
        while i < self.block_size
            invariant
                i <= self.block_size,
                self.playback@.len() == self.block_size,
                forall|j: int| 0 <= j < i ==> self.playback@[j] == self.silence,
                self.block_size == old(self).block_size,
                self.silence == old(self).silence,
                self.pending@.len() == 0,
            decreases self.block_size - i,
        {
            self.playback.set(i, self.silence);
            i = i + 1;
        }
        self.received = Ghost(Seq::empty());
        self.delivered = Ghost(Seq::empty());
        assert(self.playback@ =~= Seq::new(self.block_size as nat, |i: int| self.silence));
        assert(self.pending@ =~= self.received@.subrange(0, 0));
    }
}

/// A sample received at stream time `t` comes back, processed, exactly one
/// block later: the output at `t + block_size` is element `t % block_size` of
/// the processed block made from the input block holding time `t`.
pub proof fn lemma_one_block_latency<T: Copy>(f: BlockFramer<T>, t: int)
    requires
        f.wf(),
        t >= 0,
    ensures
        f.output_at(t + f.spec_block_size()) == f.delivered()[t / (f.spec_block_size() as int)][t
            % (f.spec_block_size() as int)],
{
    let b = f.spec_block_size() as int;
    vstd::arithmetic::div_mod::lemma_fundamental_div_mod(t, b);
    vstd::arithmetic::div_mod::lemma_mod_bound(t, b);
    assert(b * (t / b) + b == b * (t / b + 1)) by (nonlinear_arith);
    vstd::arithmetic::div_mod::lemma_fundamental_div_mod_converse(t + b, b, t / b + 1, t % b);
}

/// Silence in, silence out: when every processed block delivered so far is
/// silent, every sample played out so far is silence, including the block of
/// silence that follows a reset.
pub proof fn lemma_silent_blocks_play_silence<T: Copy>(f: BlockFramer<T>, t: int)
    requires
        f.wf(),
        0 <= t < f.received().len(),
        forall|k: int|
            0 <= k < f.delivered().len() ==> #[trigger] f.delivered()[k] == Seq::new(
                f.spec_block_size(),
                |i: int| f.spec_silence(),
            ),
    ensures
        f.output_at(t) == f.spec_silence(),
{
    let b = f.spec_block_size() as int;
    let n = f.delivered().len() as int;
    if t >= b {
        vstd::arithmetic::div_mod::lemma_fundamental_div_mod(t, b);
        vstd::arithmetic::div_mod::lemma_mod_bound(t, b);
        vstd::arithmetic::div_mod::lemma_div_is_ordered(b, t, b);
        vstd::arithmetic::div_mod::lemma_div_by_self(b);
        assert(t / b <= n) by {
            if t / b > n {
                assert(b * (t / b) >= b * (n + 1)) by (nonlinear_arith)
                    requires
                        t / b >= n + 1,
                        b > 0,
                ;
                assert(b * (n + 1) == n * b + b) by (nonlinear_arith);
            }
        }
        assert(f.delivered()[t / b - 1] == Seq::new(f.spec_block_size(), |i: int| f.spec_silence()));
    }
}

} // verus!
