//! Decoder for APT (Automatic Picture Transmission), the picture signal of the
//! NOAA weather satellites.
//!
//! The signal is an amplitude-modulated subcarrier in the demodulated audio.
//! Its envelope carries two scan lines a second, and each line carries:
//!
//! ```text
//! Sync A (7 cycles at 1040 Hz) | Space A | Video A | Telemetry A |
//! Sync B (7 cycles at  832 Hz) | Space B | Video B | Telemetry B |
//! ```
//!
//! The decoder filters the audio, resamples it to [`INTERMEDIATE_RATE_HZ`],
//! takes the envelope, finds the sync burst of each line and resamples the
//! line to one sample for each pixel.

pub mod decoder;
pub mod envelope;
pub mod picture;
pub mod sync;

pub use crate::apt::decoder::AptDecoder;
pub use crate::apt::envelope::{Apt137Demodulator, EnvelopeDetector, RealResampler};
pub use crate::apt::sync::{
    build_padded_sync_a_template, build_square_template, SyncDetector, SyncMatch,
};

use crate::arith::Arithmetic;
use vstd::prelude::*;

verus! {

/// Pixels of a scan line, both channels together.
pub const LINE_PIXELS: usize = 2080;

/// Scan lines a second.
pub const LINES_PER_SECOND: u32 = 2;

/// Pixels a second.
pub const PIXELS_PER_SECOND: u32 = 4160;

/// Frequency of the subcarrier, in hertz.
pub const SUBCARRIER_HZ: u32 = 2400;

/// Frequency of the burst that precedes channel A, in hertz.
pub const SYNC_A_HZ: u32 = 1040;

/// Frequency of the burst that precedes channel B, in hertz.
pub const SYNC_B_HZ: u32 = 832;

/// Cycles of a sync burst.
pub const SYNC_BURST_CYCLES: usize = 7;

/// Rate that the decoder works at, in hertz: a multiple of the pixel rate and
/// of both sync frequencies, with twice the subcarrier below half of it.
pub const INTERMEDIATE_RATE_HZ: u32 = 12_480;

/// Samples of a pixel at [`INTERMEDIATE_RATE_HZ`].
pub const SAMPLES_PER_PIXEL: usize = 3;

/// Samples of a scan line at [`INTERMEDIATE_RATE_HZ`].
pub const SAMPLES_PER_LINE: usize = LINE_PIXELS * SAMPLES_PER_PIXEL;

/// Samples of a cycle of Sync A at [`INTERMEDIATE_RATE_HZ`].
pub const SAMPLES_PER_SYNC_A_CYCLE: usize = 12;

/// Samples of a cycle of Sync B at [`INTERMEDIATE_RATE_HZ`].
pub const SAMPLES_PER_SYNC_B_CYCLE: usize = 15;

/// Pixels of silence before the burst in the pattern of Sync A.
pub const SYNC_A_LEADING_PAD_PX: usize = 2;

/// Pixels of the burst in the pattern of Sync A.
pub const SYNC_A_MODULATED_PX: usize = 28;

/// Pixels of silence behind the burst in the pattern of Sync A.
pub const SYNC_A_TRAILING_PAD_PX: usize = 8;

/// Pixels of the pattern of Sync A.
pub const SYNC_A_TOTAL_PX: usize = SYNC_A_LEADING_PAD_PX + SYNC_A_MODULATED_PX
    + SYNC_A_TRAILING_PAD_PX;

/// Pixels of the field that Sync A takes in a line. It is one pixel wider than
/// the pattern.
pub const SYNC_A_FIELD_PX: usize = 39;

/// Samples of silence before the burst in the pattern of Sync A.
pub const SYNC_A_LEADING_PAD_SAMPLES: usize = SYNC_A_LEADING_PAD_PX * SAMPLES_PER_PIXEL;

/// Where the pattern of Sync A first goes high, in samples.
pub const SYNC_A_FIRST_HIGH_OFFSET_SAMPLES: usize = SYNC_A_LEADING_PAD_SAMPLES + (
SAMPLES_PER_SYNC_A_CYCLE / 2);

/// Samples of the pattern of Sync A.
pub const SYNC_A_TEMPLATE_LEN: usize = SYNC_A_TOTAL_PX * SAMPLES_PER_PIXEL;

/// Samples of the pattern of Sync B.
pub const SYNC_B_TEMPLATE_LEN: usize = SYNC_BURST_CYCLES * SAMPLES_PER_SYNC_B_CYCLE;

/// Lines that the decoder holds back for a caller whose buffer was full.
pub const READY_QUEUE_CAP: usize = 8;

/// The input rate must be above this, in hertz.
pub const MIN_INPUT_RATE_HZ: u32 = 10_600;

/// The rates and lengths fit together: a line is a whole number of pixels, a
/// pixel and a cycle of each burst are whole numbers of samples, and the burst
/// of Sync A has the length that its pattern gives it.
pub proof fn rates_fit()
    ensures
        PIXELS_PER_SECOND == LINE_PIXELS * LINES_PER_SECOND,
        INTERMEDIATE_RATE_HZ == PIXELS_PER_SECOND * SAMPLES_PER_PIXEL,
        INTERMEDIATE_RATE_HZ == SAMPLES_PER_LINE * LINES_PER_SECOND,
        INTERMEDIATE_RATE_HZ == SAMPLES_PER_SYNC_A_CYCLE * SYNC_A_HZ,
        INTERMEDIATE_RATE_HZ == SAMPLES_PER_SYNC_B_CYCLE * SYNC_B_HZ,
        SYNC_A_MODULATED_PX * SAMPLES_PER_PIXEL == SYNC_BURST_CYCLES * SAMPLES_PER_SYNC_A_CYCLE,
        4 * SUBCARRIER_HZ < INTERMEDIATE_RATE_HZ,
        SYNC_A_TOTAL_PX < SYNC_A_FIELD_PX,
{
}

/// Which half of a line a sync burst belongs to.
#[derive(Debug, Clone, Copy, PartialEq, Eq, Structural)]
pub enum SyncChannel {
    /// The first half.
    A,
    /// The second half.
    B,
}

/// What a scan line holds.
#[verifier::ext_equal]
pub struct LineView<A: Arithmetic> {
    /// Greyscale values of the pixels.
    pub pixels: Seq<u8>,
    /// Envelope at the pixels.
    pub raw: Seq<A::R>,
    /// How well the sync burst matched.
    pub quality: A::R,
    /// Which burst matched.
    pub channel: SyncChannel,
    /// Where the line starts in the input.
    pub index: int,
}

/// A decoded scan line.
pub struct AptLine<A: Arithmetic> {
    /// Greyscale values of the pixels, stretched to the full range within the
    /// line.
    pub pixels: [u8; LINE_PIXELS],
    /// Envelope at the pixels, as it was demodulated.
    pub raw_samples: [A::R; LINE_PIXELS],
    /// How well the sync burst matched, from 0 to 1.
    pub sync_quality: A::R,
    /// Which burst matched.
    pub sync_channel: SyncChannel,
    /// Number of the sample of the input that the line starts at.
    pub input_sample_index: u64,
}

impl<A: Arithmetic> AptLine<A> {
    /// What the line holds.
    pub open spec fn view(self) -> LineView<A> {
        LineView {
            pixels: self.pixels@,
            raw: self.raw_samples@,
            quality: self.sync_quality,
            channel: self.sync_channel,
            index: self.input_sample_index as int,
        }
    }
}

impl<A: Arithmetic> Default for AptLine<A> {
    /// A black line at the start of the input.
    fn default() -> (line: Self)
        ensures
            line@ == (LineView::<A> {
                pixels: Seq::new(LINE_PIXELS as nat, |i: int| 0u8),
                raw: Seq::new(LINE_PIXELS as nat, |i: int| A::integer_value(0)),
                quality: A::integer_value(0),
                channel: SyncChannel::A,
                index: 0,
            }),
    {
        let line: AptLine<A> = AptLine {
            pixels: [0u8;LINE_PIXELS],
            raw_samples: [A::integer(0);LINE_PIXELS],
            sync_quality: A::integer(0),
            sync_channel: SyncChannel::A,
            input_sample_index: 0,
        };
        assert(line@.pixels =~= Seq::new(LINE_PIXELS as nat, |i: int| 0u8));
        assert(line@.raw =~= Seq::new(LINE_PIXELS as nat, |i: int| A::integer_value(0)));
        line
    }
}

impl<A: Arithmetic> Clone for AptLine<A> {
    fn clone(&self) -> (line: Self)
        ensures
            line == *self,
    {
        AptLine {
            pixels: self.pixels,
            raw_samples: self.raw_samples,
            sync_quality: self.sync_quality,
            sync_channel: self.sync_channel,
            input_sample_index: self.input_sample_index,
        }
    }
}

} // verus!
