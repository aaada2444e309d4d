//! Signal-chain building blocks for a guitar amplifier and cabinet simulator.
//!
//! This crate holds the parts of the chain whose correctness is a matter of
//! bookkeeping rather than of floating-point arithmetic: the cabinet catalog
//! and its selection state, the validation and partitioning of impulse
//! responses, the block framing that turns a per-sample stream into blocks for
//! frequency-domain convolution, the ring of delayed input spectra used by
//! uniformly partitioned convolution, and the decoding of WAV impulse-response
//! files. Every item is generic over the sample type or works on integers, so
//! the same verified code serves any numeric sample representation.

pub mod cabinet;
pub mod convolution;
pub mod delay_line;
pub mod framing;
pub mod ir_loader;

pub use cabinet::CabinetType;
pub use convolution::ConvolutionError;
pub use delay_line::DelayLine;
pub use framing::BlockFramer;
pub use ir_loader::{IrLoadError, IrLoader, WavData, WavSamples};
