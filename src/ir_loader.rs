//! Decoding of impulse responses stored as RIFF/WAVE files.
//!
//! The decoder reads the header fields it needs, finds the first `data` chunk
//! and extracts the first channel of every whole frame as the integer code the
//! file stores. Turning those codes into sample values is left to the caller,
//! which knows the sample representation it works with.

use vstd::prelude::*;
use crate::cabinet::CabinetType;

verus! {

/// Longest impulse response kept from a file (four seconds at 48 kHz).
pub const MAX_FILE_SAMPLES: usize = 192000;

/// Smallest file that can hold a canonical WAV header.
pub const WAV_HEADER_LEN: usize = 44;

/// Why an impulse-response file could not be used.
#[derive(Debug, Clone, Copy, PartialEq, Eq, Structural)]
pub enum IrLoadError {
    FileNotFound,
    ReadError,
    InvalidFormat,
    UnsupportedFormat,
}

impl IrLoadError {
    /// A human-readable description of the error.
    pub fn message(&self) -> (r: &'static str)
        ensures
            r@ == self.spec_message(),
    {
        match self {
            IrLoadError::FileNotFound => "IR file not found",
            IrLoadError::ReadError => "Failed to read IR file",
            IrLoadError::InvalidFormat => "Invalid WAV format",
            IrLoadError::UnsupportedFormat => "Unsupported audio format",
        }
    }

    pub open spec fn spec_message(&self) -> Seq<char> {
        match self {
            IrLoadError::FileNotFound => "IR file not found"@,
            IrLoadError::ReadError => "Failed to read IR file"@,
            IrLoadError::InvalidFormat => "Invalid WAV format"@,
            IrLoadError::UnsupportedFormat => "Unsupported audio format"@,
        }
    }
}

/// The first-channel sample codes of a WAV file, in the file's own encoding.
#[derive(Debug, Clone, PartialEq)]
pub enum WavSamples {
    /// Signed 16-bit PCM codes.
    Pcm16(Vec<i16>),
    /// Signed 24-bit PCM codes, sign-extended.
    Pcm24(Vec<i32>),
    /// Bit patterns of IEEE-754 single-precision samples.
    Float32(Vec<u32>),
}

impl WavSamples {
    /// The codes as integers, whatever their width.
    pub open spec fn codes(&self) -> Seq<int> {
        match self {
            WavSamples::Pcm16(v) => Seq::new(v@.len(), |k: int| v@[k] as int),
            WavSamples::Pcm24(v) => Seq::new(v@.len(), |k: int| v@[k] as int),
            WavSamples::Float32(v) => Seq::new(v@.len(), |k: int| v@[k] as int),
        }
    }

    /// Number of decoded samples.
    pub fn len(&self) -> (r: usize)
        ensures
            r == self.codes().len(),
    {
        match self {
            WavSamples::Pcm16(v) => v.len(),
            WavSamples::Pcm24(v) => v.len(),
            WavSamples::Float32(v) => v.len(),
        }
    }
}

/// What a WAV file holds, as far as impulse-response loading needs it.
#[derive(Debug, Clone, PartialEq)]
pub struct WavData {
    pub sample_rate: u32,
    pub channels: u16,
    pub bit_depth: u16,
    pub samples: WavSamples,
}

/// Little-endian unsigned 16-bit value at `at`.
pub open spec fn le_u16(b: Seq<u8>, at: int) -> int {
    b[at] + 256 * b[at + 1]
}

/// Little-endian unsigned 24-bit value at `at`.
pub open spec fn le_u24(b: Seq<u8>, at: int) -> int {
    b[at] + 256 * b[at + 1] + 65536 * b[at + 2]
}

/// Little-endian unsigned 32-bit value at `at`.
pub open spec fn le_u32(b: Seq<u8>, at: int) -> int {
    b[at] + 256 * b[at + 1] + 65536 * b[at + 2] + 16777216 * b[at + 3]
}

/// Signed 16-bit PCM code at `at` (two's complement, little-endian).
pub open spec fn pcm16_at(b: Seq<u8>, at: int) -> int {
    let raw = le_u16(b, at);
    if raw < 32768 {
        raw
    } else {
        raw - 65536
    }
}

/// Signed 24-bit PCM code at `at` (two's complement, little-endian).
pub open spec fn pcm24_at(b: Seq<u8>, at: int) -> int {
    let raw = le_u24(b, at);
    if raw < 8388608 {
        raw
    } else {
        raw - 16777216
    }
}

/// The four bytes at `at` spell `t0 t1 t2 t3`.
pub open spec fn tag_at(b: Seq<u8>, at: int, t0: u8, t1: u8, t2: u8, t3: u8) -> bool {
    &&& b[at] == t0
    &&& b[at + 1] == t1
    &&& b[at + 2] == t2
    &&& b[at + 3] == t3
}

/// The bytes at `at` spell `data`.
pub open spec fn is_data_tag(b: Seq<u8>, at: int) -> bool {
    tag_at(b, at, 0x64, 0x61, 0x74, 0x61)
}

/// The file is long enough for a header and starts with `RIFF....WAVE`.
pub open spec fn riff_wave_header(b: Seq<u8>) -> bool {
    &&& b.len() >= WAV_HEADER_LEN
    &&& tag_at(b, 0, 0x52, 0x49, 0x46, 0x46)
    &&& tag_at(b, 8, 0x57, 0x41, 0x56, 0x45)
}

/// First position at or after `i`, and before `b.len() - 8`, where `data` is spelled.
pub open spec fn find_data_tag(b: Seq<u8>, i: int) -> Option<int>
    decreases b.len() - 8 - i,
{
    if 0 <= i && i < b.len() - 8 {
        if is_data_tag(b, i) {
            Some(i)
        } else {
            find_data_tag(b, i + 1)
        }
    } else {
        None
    }
}

/// Start and length of the sample data, when the first `data` chunk (searched
/// from offset 12) announces a non-zero size that fits in the file.
pub open spec fn data_chunk(b: Seq<u8>) -> Option<(int, int)> {
    match find_data_tag(b, 12) {
        Some(i) => {
            let size = le_u32(b, i + 4);
            if size != 0 && i + 8 + size <= b.len() {
                Some((i + 8, size))
            } else {
                None
            }
        },
        None => None,
    }
}

pub open spec fn wav_channels(b: Seq<u8>) -> int {
    le_u16(b, 22)
}

pub open spec fn wav_sample_rate(b: Seq<u8>) -> int {
    le_u32(b, 24)
}

pub open spec fn wav_bit_depth(b: Seq<u8>) -> int {
    le_u16(b, 34)
}

pub open spec fn supported_bit_depth(depth: int) -> bool {
    depth == 16 || depth == 24 || depth == 32
}

/// Whether a file is accepted, and if not, why. A file that announces zero
/// channels carries no frames and is reported as malformed.
pub open spec fn wav_check(b: Seq<u8>) -> Result<(), IrLoadError> {
    if !riff_wave_header(b) {
        Err(IrLoadError::InvalidFormat)
    } else if data_chunk(b) is None {
        Err(IrLoadError::InvalidFormat)
    } else if !supported_bit_depth(wav_bit_depth(b)) {
        Err(IrLoadError::UnsupportedFormat)
    } else if wav_channels(b) == 0 {
        Err(IrLoadError::InvalidFormat)
    } else {
        Ok(())
    }
}

/// Bytes per frame: one sample of every channel.
pub open spec fn frame_bytes(b: Seq<u8>) -> int {
    (wav_bit_depth(b) / 8) * wav_channels(b)
}

/// Number of samples kept: whole frames of the data chunk, at most `MAX_FILE_SAMPLES`.
pub open spec fn kept_frames(b: Seq<u8>) -> int {
    let size = data_chunk(b).unwrap().1;
    let whole = size / frame_bytes(b);
    if whole <= MAX_FILE_SAMPLES {
        whole
    } else {
        MAX_FILE_SAMPLES as int
    }
}

/// The code of the first channel of frame `k`.
pub open spec fn frame_code(b: Seq<u8>, k: int) -> int {
    let at = data_chunk(b).unwrap().0 + k * frame_bytes(b);
    let depth = wav_bit_depth(b);
    if depth == 16 {
        pcm16_at(b, at)
    } else if depth == 24 {
        pcm24_at(b, at)
    } else {
        le_u32(b, at)
    }
}

/// The decoded codes of an accepted file.
pub open spec fn wav_codes(b: Seq<u8>) -> Seq<int> {
    Seq::new(kept_frames(b) as nat, |k: int| frame_code(b, k))
}

/// The sample encoding matches the announced bit depth.
pub open spec fn samples_match_depth(s: WavSamples, depth: int) -> bool {
    match s {
        WavSamples::Pcm16(_) => depth == 16,
        WavSamples::Pcm24(_) => depth == 24,
        WavSamples::Float32(_) => depth == 32,
    }
}

fn read_u16_le(bytes: &[u8], at: usize) -> (r: u16)
    requires
        at + 2 <= bytes@.len(),
    ensures
        r == le_u16(bytes@, at as int),
{
    bytes[at] as u16 + (bytes[at + 1] as u16) * 256
}

fn read_u32_le(bytes: &[u8], at: usize) -> (r: u32)
    requires
        at + 4 <= bytes@.len(),
    ensures
        r == le_u32(bytes@, at as int),
{
    bytes[at] as u32 + (bytes[at + 1] as u32) * 256 + (bytes[at + 2] as u32) * 65536 + (
    bytes[at + 3] as u32) * 16777216
}

fn has_tag(bytes: &[u8], at: usize, t0: u8, t1: u8, t2: u8, t3: u8) -> (r: bool)
    requires
        at + 4 <= bytes@.len(),
    ensures
        r == tag_at(bytes@, at as int, t0, t1, t2, t3),
{
    bytes[at] == t0 && bytes[at + 1] == t1 && bytes[at + 2] == t2 && bytes[at + 3] == t3
}

/// The frame layout facts shared by the sample decoders.
spec fn frames_fit(len: int, start: int, frame: int, count: int) -> bool {
    &&& 0 <= start
    &&& frame > 0
    &&& 0 <= count
    &&& start + count * frame <= len
}

proof fn lemma_frame_in_bounds(start: int, frame: int, count: int, k: int)
    requires
        0 <= k < count,
        frame > 0,
    ensures
        start + k * frame + frame <= start + count * frame,
        start + (k + 1) * frame == start + k * frame + frame,
{
    assert((k + 1) * frame <= count * frame) by (nonlinear_arith)
        requires
            k + 1 <= count,
            frame > 0,
    ;
    assert((k + 1) * frame == k * frame + frame) by (nonlinear_arith);
}

fn decode_pcm16(bytes: &[u8], start: usize, frame: usize, count: usize) -> (r: Vec<i16>)
    requires
        frame >= 2,
        frames_fit(bytes@.len() as int, start as int, frame as int, count as int),
    ensures
        r@.len() == count,
        forall|k: int| 0 <= k < count ==> r@[k] == pcm16_at(bytes@, start + k * frame),
{
    let mut out: Vec<i16> = Vec::with_capacity(count);
    let len = bytes.len();
    let mut at: usize = start;
    let mut k: usize = 0;
    while k < count
        invariant
            len == bytes@.len(),
            frame >= 2,
            frames_fit(bytes@.len() as int, start as int, frame as int, count as int),
            k <= count,
            at == start + k * frame,
            out@.len() == k,
            forall|j: int| 0 <= j < k ==> out@[j] == pcm16_at(bytes@, start + j * frame),
        decreases count - k,
    {
        proof {
            lemma_frame_in_bounds(start as int, frame as int, count as int, k as int);
        }
        assert(at + frame <= len);
        let raw = read_u16_le(bytes, at);
        let code: i16 = if raw < 32768 {
            raw as i16
        } else {
            (raw as i32 - 65536) as i16
        };
        out.push(code);
        at = at + frame;
        k = k + 1;
    }
    out
}

fn decode_pcm24(bytes: &[u8], start: usize, frame: usize, count: usize) -> (r: Vec<i32>)
    requires
        frame >= 3,
        frames_fit(bytes@.len() as int, start as int, frame as int, count as int),
    ensures
        r@.len() == count,
        forall|k: int| 0 <= k < count ==> r@[k] == pcm24_at(bytes@, start + k * frame),
{
    let mut out: Vec<i32> = Vec::with_capacity(count);
    let len = bytes.len();
    let mut at: usize = start;
    let mut k: usize = 0;
    while k < count
        invariant
            len == bytes@.len(),
            frame >= 3,
            frames_fit(bytes@.len() as int, start as int, frame as int, count as int),
            k <= count,
            at == start + k * frame,
            out@.len() == k,
            forall|j: int| 0 <= j < k ==> out@[j] == pcm24_at(bytes@, start + j * frame),
        decreases count - k,
    {
        proof {
            lemma_frame_in_bounds(start as int, frame as int, count as int, k as int);
        }
        assert(at + frame <= len);
        let raw: i32 = bytes[at] as i32 + (bytes[at + 1] as i32) * 256 + (bytes[at + 2] as i32)
            * 65536;
        let code: i32 = if raw < 8388608 {
            raw
        } else {
            raw - 16777216
        };
        out.push(code);
        at = at + frame;
        k = k + 1;
    }
    out
}

fn decode_float32(bytes: &[u8], start: usize, frame: usize, count: usize) -> (r: Vec<u32>)
    requires
        frame >= 4,
        frames_fit(bytes@.len() as int, start as int, frame as int, count as int),
    ensures
        r@.len() == count,
        forall|k: int| 0 <= k < count ==> r@[k] == le_u32(bytes@, start + k * frame),
{
    let mut out: Vec<u32> = Vec::with_capacity(count);
    let len = bytes.len();
    let mut at: usize = start;
    let mut k: usize = 0;
    while k < count
        invariant
            len == bytes@.len(),
            frame >= 4,
            frames_fit(bytes@.len() as int, start as int, frame as int, count as int),
            k <= count,
            at == start + k * frame,
            out@.len() == k,
            forall|j: int| 0 <= j < k ==> out@[j] == le_u32(bytes@, start + j * frame),
        decreases count - k,
    {
        proof {
            lemma_frame_in_bounds(start as int, frame as int, count as int, k as int);
        }
        assert(at + frame <= len);
        out.push(read_u32_le(bytes, at));
        at = at + frame;
        k = k + 1;
    }
    out
}

/// Unit type grouping the impulse-response file functions.
pub struct IrLoader;

/// Position of the first `data` tag between offset 12 and `len - 8`.
fn find_data_chunk(bytes: &[u8]) -> (r: Option<usize>)
    requires
        bytes@.len() >= WAV_HEADER_LEN,
    ensures
        match r {
            Some(i) => find_data_tag(bytes@, 12) == Some(i as int),
            None => find_data_tag(bytes@, 12) is None,
        },
        r matches Some(i) ==> 12 <= i && i + 8 < bytes@.len(),
{
    let end = bytes.len() - 8;
    let mut i: usize = 12;
    while i < end
        invariant
            end == bytes@.len() - 8,
            12 <= i <= end,
            find_data_tag(bytes@, 12) == find_data_tag(bytes@, i as int),
        decreases end - i,
    {
        if has_tag(bytes, i, 0x64, 0x61, 0x74, 0x61) {
            return Some(i);
        }
        i = i + 1;
    }
    None
}

proof fn lemma_whole_frames_fit(size: int, frame: int, count: int)
    requires
        size >= 0,
        frame > 0,
        0 <= count <= size / frame,
    ensures
        count * frame <= size,
{
    vstd::arithmetic::div_mod::lemma_fundamental_div_mod(size, frame);
    assert(count * frame <= (size / frame) * frame) by (nonlinear_arith)
        requires
            count <= size / frame,
            frame > 0,
    ;
    vstd::arithmetic::div_mod::lemma_mod_bound(size, frame);
}

impl IrLoader {
    /// Decodes a WAV file held in memory.
    ///
    /// The file must start with `RIFF`, hold `WAVE` at offset 8 and be at least
    /// 44 bytes long. The channel count, sample rate and bit depth are read
    /// from the canonical header offsets 22, 24 and 34. The sample data is the
    /// first chunk tagged `data` found from offset 12 on; its announced size
    /// must be non-zero and fit in the file. Supported depths are 16 and 24 bit
    /// PCM and 32 bit float; of every whole frame the first channel is kept, up
    /// to `MAX_FILE_SAMPLES` samples.
    pub fn decode_wav(bytes: &[u8]) -> (r: Result<WavData, IrLoadError>)
        ensures
            match r {
                Ok(d) => {
                    &&& wav_check(bytes@) is Ok
                    &&& d.sample_rate == wav_sample_rate(bytes@)
                    &&& d.channels == wav_channels(bytes@)
                    &&& d.bit_depth == wav_bit_depth(bytes@)
                    &&& samples_match_depth(d.samples, d.bit_depth as int)
                    &&& d.samples.codes() == wav_codes(bytes@)
                },
                Err(e) => wav_check(bytes@) == Err::<(), IrLoadError>(e),
            },
    {
        let len = bytes.len();
        if len < WAV_HEADER_LEN {
            return Err(IrLoadError::InvalidFormat);
        }
        if !has_tag(bytes, 0, 0x52, 0x49, 0x46, 0x46) || !has_tag(bytes, 8, 0x57, 0x41, 0x56, 0x45) {
            return Err(IrLoadError::InvalidFormat);
        }
        let sample_rate = read_u32_le(bytes, 24);
        let bit_depth = read_u16_le(bytes, 34);
        let channels = read_u16_le(bytes, 22);

        let tag = match find_data_chunk(bytes) {
            Some(i) => i,
            None => {
                return Err(IrLoadError::InvalidFormat);
            },
        };
        let data_size = read_u32_le(bytes, tag + 4) as usize;
        let data_start = tag + 8;
        if data_size == 0 || data_size > len - data_start {
            return Err(IrLoadError::InvalidFormat);
        }
        assert(data_chunk(bytes@) == Some((data_start as int, data_size as int)));

        let width: usize = if bit_depth == 16 {
            2
        } else if bit_depth == 24 {
            3
        } else if bit_depth == 32 {
            4
        } else {
            return Err(IrLoadError::UnsupportedFormat);
        };
        if channels == 0 {
            return Err(IrLoadError::InvalidFormat);
        }
        let frame = width * channels as usize;
        assert(frame == frame_bytes(bytes@));
        let whole = data_size / frame;
        let count = if whole <= MAX_FILE_SAMPLES {
            whole
        } else {
            MAX_FILE_SAMPLES
        };
        assert(count == kept_frames(bytes@));
        proof {
            lemma_whole_frames_fit(data_size as int, frame as int, count as int);
        }
        let samples = if width == 2 {
            let codes = decode_pcm16(bytes, data_start, frame, count);
            assert(WavSamples::Pcm16(codes).codes() =~= wav_codes(bytes@));
            WavSamples::Pcm16(codes)
        } else if width == 3 {
            let codes = decode_pcm24(bytes, data_start, frame, count);
            assert(WavSamples::Pcm24(codes).codes() =~= wav_codes(bytes@));
            WavSamples::Pcm24(codes)
        } else {
            let codes = decode_float32(bytes, data_start, frame, count);
            assert(WavSamples::Float32(codes).codes() =~= wav_codes(bytes@));
            WavSamples::Float32(codes)
        };
        Ok(WavData { sample_rate, channels, bit_depth, samples })
    }
}

} // verus!
