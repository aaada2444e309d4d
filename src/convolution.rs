//! Impulse-response validation and partitioning for block convolution.

use vstd::prelude::*;

verus! {

/// Longest impulse response accepted for convolution (about two seconds at 48 kHz).
pub const MAX_IMPULSE_RESPONSE_LEN: usize = 96000;

/// Why an impulse response or an engine configuration was rejected.
#[derive(Debug, Clone, Copy, PartialEq, Eq, Structural)]
pub enum ConvolutionError {
    EmptyImpulseResponse,
    ImpulseResponseTooLong,
    FftError,
    InvalidBlockSize,
}

impl ConvolutionError {
    /// A human-readable description of the error.
    pub fn message(&self) -> (r: &'static str)
        ensures
            r@ == self.spec_message(),
    {
        match self {
            ConvolutionError::EmptyImpulseResponse => "Impulse response cannot be empty",
            ConvolutionError::ImpulseResponseTooLong => "Impulse response too long (max 96000 samples)",
            ConvolutionError::FftError => "FFT processing error",
            ConvolutionError::InvalidBlockSize => "Block size must be power of 2",
        }
    }

    pub open spec fn spec_message(&self) -> Seq<char> {
        match self {
            ConvolutionError::EmptyImpulseResponse => "Impulse response cannot be empty"@,
            ConvolutionError::ImpulseResponseTooLong => "Impulse response too long (max 96000 samples)"@,
            ConvolutionError::FftError => "FFT processing error"@,
            ConvolutionError::InvalidBlockSize => "Block size must be power of 2"@,
        }
    }
}

/// Number of `block_size` chunks needed to cover `len` samples: the whole
/// chunks, and one more for a partial tail.
pub open spec fn partition_count(len: nat, block_size: nat) -> nat
    recommends
        block_size > 0,
{
    if len % block_size == 0 {
        len / block_size
    } else {
        len / block_size + 1
    }
}

/// Sample `i` of partition `p`: the impulse response's chunk `p` in the first
/// `block_size` places, zero-padded (with `padding`) to twice the block size.
pub open spec fn partition_sample<T>(ir: Seq<T>, block_size: nat, padding: T, p: int, i: int) -> T {
    if i < block_size && p * block_size + i < ir.len() {
        ir[p * block_size + i]
    } else {
        padding
    }
}

/// `n` is a power of two.
pub open spec fn is_power_of_two(n: nat) -> bool
    decreases n,
{
    if n == 1 {
        true
    } else if n >= 2 && n % 2 == 0 {
        is_power_of_two(n / 2)
    } else {
        false
    }
}

/// A block size is usable when it is a power of two whose transform size,
/// twice the block size, can be represented.
pub open spec fn block_size_check(block_size: nat) -> Result<(), ConvolutionError> {
    if is_power_of_two(block_size) && 2 * block_size <= usize::MAX {
        Ok(())
    } else {
        Err(ConvolutionError::InvalidBlockSize)
    }
}

/// Checks that `block_size` is a power of two and that twice it fits in `usize`.
pub fn check_block_size(block_size: usize) -> (r: Result<(), ConvolutionError>)
    ensures
        r == block_size_check(block_size as nat),
{
    let mut m: usize = block_size;
    while m >= 2 && m % 2 == 0
        invariant
            is_power_of_two(m as nat) == is_power_of_two(block_size as nat),
        decreases m,
    {
        m = m / 2;
    }
    if m == 1 && block_size <= usize::MAX / 2 {
        Ok(())
    } else {
        Err(ConvolutionError::InvalidBlockSize)
    }
}

proof fn lemma_partition_start(len: int, block_size: int, count: int, k: int)
    requires
        len >= 0,
        block_size > 0,
        count == partition_count(len as nat, block_size as nat),
        0 <= k < count,
    ensures
        0 <= k * block_size < len,
{
    vstd::arithmetic::div_mod::lemma_fundamental_div_mod(len, block_size);
    vstd::arithmetic::div_mod::lemma_mod_bound(len, block_size);
    let q = len / block_size;
    let r = len % block_size;
    if k < q {
        assert((k + 1) * block_size <= q * block_size) by (nonlinear_arith)
            requires
                k + 1 <= q,
                block_size > 0,
        ;
        assert((k + 1) * block_size == k * block_size + block_size) by (nonlinear_arith);
    } else {
        assert(k == q);
        assert(r != 0);
    }
    assert(0 <= k * block_size) by (nonlinear_arith)
        requires
            k >= 0,
            block_size > 0,
    ;
}

/// Splits an impulse response into `block_size` chunks, each zero-padded with
/// `padding` to twice the block size, ready for a forward transform.
pub fn partition_impulse_response<T: Copy>(ir: &[T], block_size: usize, padding: T) -> (r: Vec<
    Vec<T>,
>)
    requires
        block_size > 0,
        2 * block_size <= usize::MAX,
    ensures
        r@.len() == partition_count(ir@.len(), block_size as nat),
        forall|p: int| 0 <= p < r@.len() ==> (#[trigger] r@[p])@.len() == 2 * block_size,
        forall|p: int, i: int|
            0 <= p < r@.len() && 0 <= i < 2 * block_size ==> (#[trigger] r@[p]@[i])
                == partition_sample(ir@, block_size as nat, padding, p, i),
{
    let len = ir.len();
    let fft_size = 2 * block_size;
    proof {
        vstd::arithmetic::div_mod::lemma_mod_bound(len as int, block_size as int);
        if len % block_size != 0 && len > 0 && block_size > 1 {
            vstd::arithmetic::div_mod::lemma_div_decreases(len as int, block_size as int);
        }
        if len == 0 {
            vstd::arithmetic::div_mod::lemma_small_mod(0, block_size as nat);
        }
    }
    let count = if len % block_size == 0 {
        len / block_size
    } else {
        len / block_size + 1
    };
    let mut parts: Vec<Vec<T>> = Vec::with_capacity(count);
    let mut k: usize = 0;
    while k < count
        invariant
            len == ir@.len(),
            fft_size == 2 * block_size,
            block_size > 0,
            count == partition_count(len as nat, block_size as nat),
            k <= count,
            parts@.len() == k,
            forall|p: int| 0 <= p < k ==> (#[trigger] parts@[p])@.len() == fft_size,
            forall|p: int, i: int|
                0 <= p < k && 0 <= i < fft_size ==> (#[trigger] parts@[p]@[i])
                    == partition_sample(ir@, block_size as nat, padding, p, i),
        decreases count - k,
    {
        proof {
            lemma_partition_start(len as int, block_size as int, count as int, k as int);
        }
        let start = k * block_size;
        let mut chunk: Vec<T> = Vec::with_capacity(fft_size);
        let mut i: usize = 0;
        while i < fft_size
            invariant
                len == ir@.len(),
                fft_size == 2 * block_size,
                start == k * block_size,
                start < len,
                i <= fft_size,
                chunk@.len() == i,
                forall|j: int|
                    0 <= j < i ==> #[trigger] chunk@[j] == partition_sample(
                        ir@,
                        block_size as nat,
                        padding,
                        k as int,
                        j,
                    ),
            decreases fft_size - i,
        {
            if i < block_size && i < len - start {
                chunk.push(ir[start + i]);
            } else {
                chunk.push(padding);
            }
            i = i + 1;
        }
        parts.push(chunk);
        k = k + 1;
    }
    parts
}

/// Outcome of validating an impulse response of `len` samples.
pub open spec fn impulse_response_check(len: nat) -> Result<(), ConvolutionError> {
    if len == 0 {
        Err(ConvolutionError::EmptyImpulseResponse)
    } else if len > MAX_IMPULSE_RESPONSE_LEN {
        Err(ConvolutionError::ImpulseResponseTooLong)
    } else {
        Ok(())
    }
}

/// Checks that an impulse response is non-empty and no longer than
/// `MAX_IMPULSE_RESPONSE_LEN` samples.
pub fn check_impulse_response<T>(impulse_response: &[T]) -> (r: Result<(), ConvolutionError>)
    ensures
        r == impulse_response_check(impulse_response@.len()),
{
    if impulse_response.len() == 0 {
        Err(ConvolutionError::EmptyImpulseResponse)
    } else if impulse_response.len() > MAX_IMPULSE_RESPONSE_LEN {
        Err(ConvolutionError::ImpulseResponseTooLong)
    } else {
        Ok(())
    }
}

/// Partitioning loses nothing: sample `j` of the impulse response is found
/// in partition `j / block_size` at place `j % block_size`, and that partition
/// exists.
pub proof fn lemma_partitions_cover_impulse_response<T>(
    ir: Seq<T>,
    block_size: nat,
    padding: T,
    j: int,
)
    requires
        block_size > 0,
        0 <= j < ir.len(),
    ensures
        j / (block_size as int) < partition_count(ir.len(), block_size),
        partition_sample(ir, block_size, padding, j / (block_size as int), j % (block_size as int))
            == ir[j],
{
    let b = block_size as int;
    let n = ir.len() as int;
    vstd::arithmetic::div_mod::lemma_fundamental_div_mod(j, b);
    vstd::arithmetic::div_mod::lemma_mod_bound(j, b);
    vstd::arithmetic::div_mod::lemma_div_is_ordered(j, n, b);
    assert(j / b * b == b * (j / b)) by (nonlinear_arith);
    if n % b == 0 && j / b == n / b {
        vstd::arithmetic::div_mod::lemma_fundamental_div_mod(n, b);
        assert(false);
    }
}

} // verus!
