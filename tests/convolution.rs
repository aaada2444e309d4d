use guitar_fx::convolution::{
    check_block_size, check_impulse_response, partition_impulse_response, MAX_IMPULSE_RESPONSE_LEN,
};
use guitar_fx::{BlockFramer, ConvolutionError, DelayLine};

#[test]
fn test_convolution_creation() {
    assert!(check_block_size(256).is_ok());
    let framer: BlockFramer<f32> = BlockFramer::new(256, 0.0);
    assert_eq!(framer.block_size(), 256);
    let parts = partition_impulse_response(&[1.0f32], 256, 0.0);
    assert_eq!(parts[0].len(), 512);
    assert_eq!(framer.latency(), 256);
}

#[test]
fn test_impulse_response_loading() {
    let ir = vec![1.0f32, 0.5, 0.25, 0.125];
    assert!(check_impulse_response(&ir).is_ok());
    let parts = partition_impulse_response(&ir, 128, 0.0);
    assert!(!parts.is_empty());
}

#[test]
fn test_impulse_validation() {
    let empty: [f32; 0] = [];
    assert!(check_impulse_response(&empty).is_err());
    let long_ir = vec![1.0f32; 100000];
    assert!(check_impulse_response(&long_ir).is_err());
}

#[test]
fn impulse_validation_errors_are_exact() {
    let empty: [f32; 0] = [];
    assert_eq!(check_impulse_response(&empty), Err(ConvolutionError::EmptyImpulseResponse));
    let long_ir = vec![1.0f32; 100000];
    assert_eq!(check_impulse_response(&long_ir), Err(ConvolutionError::ImpulseResponseTooLong));
    let longest = vec![0.0f32; MAX_IMPULSE_RESPONSE_LEN];
    assert_eq!(check_impulse_response(&longest), Ok(()));
    let too_long = vec![0.0f32; MAX_IMPULSE_RESPONSE_LEN + 1];
    assert_eq!(check_impulse_response(&too_long), Err(ConvolutionError::ImpulseResponseTooLong));
    assert_eq!(check_impulse_response(&[0.5f32]), Ok(()));
}

#[test]
fn block_size_must_be_power_of_two() {
    for bs in [1usize, 2, 4, 128, 256, 512, 1 << 20] {
        assert_eq!(check_block_size(bs), Ok(()));
    }
    for bs in [0usize, 3, 6, 100, 255, 257, 384] {
        assert_eq!(check_block_size(bs), Err(ConvolutionError::InvalidBlockSize));
    }
    assert_eq!(check_block_size(usize::MAX / 2 + 1), Err(ConvolutionError::InvalidBlockSize));
}

#[test]
fn error_messages() {
    assert_eq!(ConvolutionError::EmptyImpulseResponse.message(), "Impulse response cannot be empty");
    assert_eq!(
        ConvolutionError::ImpulseResponseTooLong.message(),
        "Impulse response too long (max 96000 samples)"
    );
    assert_eq!(ConvolutionError::FftError.message(), "FFT processing error");
    assert_eq!(ConvolutionError::InvalidBlockSize.message(), "Block size must be power of 2");
}

#[test]
fn partitions_are_zero_padded_chunks() {
    let ir: Vec<i32> = (1..=10).collect();
    let parts = partition_impulse_response(&ir, 4, 0);
    assert_eq!(parts.len(), 3);
    assert_eq!(parts[0], vec![1, 2, 3, 4, 0, 0, 0, 0]);
    assert_eq!(parts[1], vec![5, 6, 7, 8, 0, 0, 0, 0]);
    assert_eq!(parts[2], vec![9, 10, 0, 0, 0, 0, 0, 0]);

    let exact: Vec<i32> = (1..=8).collect();
    let parts = partition_impulse_response(&exact, 4, -1);
    assert_eq!(parts.len(), 2);
    assert_eq!(parts[1], vec![5, 6, 7, 8, -1, -1, -1, -1]);

    let empty: [i32; 0] = [];
    assert!(partition_impulse_response(&empty, 4, 0).is_empty());
}

/// Direct-form convolution of one block with an impulse response, used as the
/// block processor in the framing tests.
fn convolve_block(block: &[f32], ir: &[f32], carry: &mut Vec<f32>) -> Vec<f32> {
    let n = block.len();
    let mut full = vec![0.0f32; n + ir.len()];
    for (i, &x) in block.iter().enumerate() {
        for (j, &h) in ir.iter().enumerate() {
            full[i + j] += x * h;
        }
    }
    let mut out = vec![0.0f32; n];
    for i in 0..n {
        out[i] = full[i] + carry.get(i).copied().unwrap_or(0.0);
    }
    let mut next = vec![0.0f32; full.len().max(carry.len())];
    for i in n..full.len() {
        next[i - n] += full[i];
    }
    for i in n..carry.len() {
        next[i - n] += carry[i];
    }
    *carry = next;
    out
}

fn run_framed(input: &[f32], ir: &[f32], block_size: usize, mix: f32) -> Vec<f32> {
    let mut framer = BlockFramer::new(block_size, 0.0f32);
    let mut carry = Vec::new();
    let mut out = Vec::new();
    for &x in input {
        if framer.needs_block() {
            let processed = convolve_block(framer.pending_block(), ir, &mut carry);
            framer.exchange_block(processed);
        }
        let wet = framer.push_sample(x);
        out.push(x * (1.0 - mix) + wet * mix);
    }
    out
}

#[test]
fn unit_impulse_comes_back_one_block_later() {
    let mut input = vec![0.0f32; 12];
    input[0] = 1.0;
    let out = run_framed(&input, &[1.0], 4, 1.0);
    for t in 0..4 {
        assert_eq!(out[t], 0.0);
    }
    assert_eq!(out[4], 1.0);
    for t in 5..12 {
        assert_eq!(out[t], 0.0);
    }
    let half = run_framed(&input, &[1.0], 4, 0.5);
    assert_eq!(half[0], 0.5);
    assert_eq!(half[4], 0.5);
}

#[test]
fn framed_stream_is_delayed_by_exactly_one_block() {
    let input: Vec<f32> = (0..20).map(|i| (i as f32) + 1.0).collect();
    let out = run_framed(&input, &[1.0], 4, 1.0);
    for t in 0..4 {
        assert_eq!(out[t], 0.0);
    }
    for t in 4..20 {
        assert_eq!(out[t], input[t - 4]);
    }
}

#[test]
fn framer_hands_out_input_blocks_in_order() {
    let mut framer = BlockFramer::new(3, 0u8);
    let mut blocks = Vec::new();
    let mut out = Vec::new();
    for x in 1u8..=9 {
        if framer.needs_block() {
            let processed: Vec<u8> = framer.pending_block().iter().map(|v| v * 10).collect();
            blocks.push(framer.exchange_block(processed));
        }
        out.push(framer.push_sample(x));
    }
    assert_eq!(blocks, vec![vec![1, 2, 3], vec![4, 5, 6]]);
    assert_eq!(out, vec![0, 0, 0, 10, 20, 30, 40, 50, 60]);
}

#[test]
fn framer_reset_restarts_with_silence() {
    let mut framer = BlockFramer::new(2, 0i32);
    for x in [5, 6, 7] {
        if framer.needs_block() {
            let p = framer.pending_block().clone();
            framer.exchange_block(p);
        }
        framer.push_sample(x);
    }
    framer.reset();
    assert!(!framer.needs_block());
    assert_eq!(framer.push_sample(1), 0);
    assert_eq!(framer.push_sample(2), 0);
    assert!(framer.needs_block());
}

#[test]
fn delay_line_keeps_newest_first() {
    let mut line = DelayLine::new(vec![30, 20, 10]);
    assert_eq!(line.len(), 3);
    assert_eq!(*line.get(0), 10);
    assert_eq!(*line.get(2), 30);
    assert_eq!(line.push(40), 30);
    assert_eq!((*line.get(0), *line.get(1), *line.get(2)), (40, 10, 20));
    assert_eq!(line.push(50), 20);
    assert_eq!(line.push(60), 10);
    assert_eq!((*line.get(0), *line.get(1), *line.get(2)), (60, 50, 40));
    let mut single = DelayLine::new(vec![1]);
    assert_eq!(single.push(2), 1);
    assert_eq!(*single.get(0), 2);
}

#[test]
fn wet_and_dry_paths_differ_on_constant_input() {
    let ir = [
        1.0f32, 0.85, 0.72, 0.61, 0.52, 0.44, 0.37, 0.32, 0.27, 0.23, 0.20, 0.17, 0.15, 0.13, 0.11,
        0.09,
    ];
    let input = vec![0.5f32; 64];
    let wet = run_framed(&input, &ir, 8, 1.0);
    let dry = run_framed(&input, &ir, 8, 0.0);
    assert_eq!(dry, input);
    assert!((wet[0] - dry[0]).abs() > 0.001);
    // One block later the wet path carries the convolution of the constant.
    assert!((wet[8] - 0.5).abs() < 1e-6);
    let settled: f32 = ir.iter().sum::<f32>() * 0.5;
    assert!((wet[63] - settled).abs() < 1e-4);
}

#[test]
fn long_impulse_response_gives_linear_convolution() {
    let ir: Vec<f32> = (0..11).map(|i| 1.0 / (i as f32 + 1.0)).collect();
    let mut input = vec![0.0f32; 40];
    input[1] = 1.0;
    input[6] = -2.0;
    let out = run_framed(&input, &ir, 4, 1.0);
    for t in 0..40 {
        let mut expected = 0.0f32;
        for (j, h) in ir.iter().enumerate() {
            if t >= 4 + j && t - 4 - j < input.len() {
                expected += input[t - 4 - j] * h;
            }
        }
        assert!((out[t] - expected).abs() < 1e-5, "t = {}", t);
    }
}
