//! Exact M1 USB Audio fixture data and the radio-disconnected conversion model.
use vstd::prelude::*;

verus! {

/// Canonical M1 UAC1 configuration descriptor.
pub const CONFIGURATION_DESCRIPTOR: [u8; 192] = [
    0x09, 0x02, 0xC0, 0x00, 0x03, 0x01, 0x00, 0x80, 0xFA, 0x09, 0x04, 0x00, 0x00, 0x00, 0x01, 0x01,
    0x00, 0x00, 0x0A, 0x24, 0x01, 0x00, 0x01, 0x46, 0x00, 0x02, 0x01, 0x02, 0x0C, 0x24, 0x02, 0x01,
    0x01, 0x01, 0x00, 0x01, 0x00, 0x00, 0x00, 0x00, 0x09, 0x24, 0x06, 0x02, 0x01, 0x01, 0x01, 0x00,
    0x00, 0x09, 0x24, 0x03, 0x03, 0x03, 0x06, 0x00, 0x02, 0x00, 0x0C, 0x24, 0x02, 0x04, 0x03, 0x06,
    0x00, 0x01, 0x00, 0x00, 0x00, 0x00, 0x09, 0x24, 0x06, 0x05, 0x04, 0x01, 0x01, 0x00, 0x00, 0x09,
    0x24, 0x03, 0x06, 0x01, 0x01, 0x00, 0x05, 0x00, 0x09, 0x04, 0x01, 0x00, 0x00, 0x01, 0x02, 0x00,
    0x00, 0x09, 0x04, 0x01, 0x01, 0x01, 0x01, 0x02, 0x00, 0x00, 0x07, 0x24, 0x01, 0x01, 0x08, 0x01,
    0x00, 0x0B, 0x24, 0x02, 0x01, 0x01, 0x02, 0x10, 0x01, 0x80, 0xBB, 0x00, 0x09, 0x05, 0x08, 0x0D,
    0x60, 0x00, 0x01, 0x00, 0x00, 0x07, 0x25, 0x01, 0x00, 0x00, 0x00, 0x00, 0x09, 0x04, 0x02, 0x00,
    0x00, 0x01, 0x02, 0x00, 0x00, 0x09, 0x04, 0x02, 0x01, 0x01, 0x01, 0x02, 0x00, 0x00, 0x07, 0x24,
    0x01, 0x06, 0x08, 0x01, 0x00, 0x0B, 0x24, 0x02, 0x01, 0x01, 0x02, 0x10, 0x01, 0x80, 0xBB, 0x00,
    0x09, 0x05, 0x88, 0x0D, 0x60, 0x00, 0x01, 0x00, 0x00, 0x07, 0x25, 0x01, 0x00, 0x00, 0x00, 0x00,
];

/// Samples in one mono USB full-speed frame at 48 kHz.
pub const USB_SAMPLES_PER_FRAME: usize = 48;

/// Bytes in one mono signed-16-bit USB frame.
pub const USB_BYTES_PER_FRAME: usize = 96;

/// Designed ring depth and advertised `bDelay`, in USB frames.
pub const RING_FRAMES: usize = 16;

/// Designed target delay, in USB frames.
pub const TARGET_FILL_FRAMES: usize = 8;

/// Smallest signed 24-bit converter word.
pub const I24_MIN: i32 = -8_388_608;

/// Largest signed 24-bit converter word.
pub const I24_MAX: i32 = 8_388_607;

/// Independent audio health causes observed by the firmware service.
#[derive(Clone, Copy, Debug, PartialEq, Eq)]
pub struct AudioHealth {
    /// USB configuration is active.
    pub configured: bool,
    /// Host-to-device transmit stream is active.
    pub tx_stream_active: bool,
    /// USB-disciplined sample clock is healthy.
    pub clock_healthy: bool,
    /// Playback/capture rings are within their safe bounds.
    pub buffers_healthy: bool,
    /// Required I2S clocks, DMA, and digital self-test are healthy.
    pub converter_healthy: bool,
}

impl AudioHealth {
    /// Aggregate required health without collapsing the underlying causes.
    pub fn aggregate_healthy(self) -> (healthy: bool)
        ensures
            healthy == (self.configured && self.tx_stream_active && self.clock_healthy
                && self.buffers_healthy && self.converter_healthy),
    {
        self.configured && self.tx_stream_active && self.clock_healthy && self.buffers_healthy
            && self.converter_healthy
    }
}

/// Clamp a value into the signed 24-bit range.
pub open spec fn clamp_i24(sample: int) -> int {
    if sample < I24_MIN {
        I24_MIN as int
    } else if sample > I24_MAX {
        I24_MAX as int
    } else {
        sample
    }
}

/// Reduce a 24-bit word to 16 bits by rounding to the nearest multiple of 256,
/// halves away from zero, the same way on both sides of zero.
pub open spec fn round_24_to_16(clamped: int) -> int {
    if clamped >= 0 {
        (clamped + 128) / 256
    } else {
        -((128 - clamped) / 256)
    }
}

/// Saturate a value into the signed 16-bit range.
pub open spec fn saturate_i16(value: int) -> int {
    if value < i16::MIN {
        i16::MIN as int
    } else if value > i16::MAX {
        i16::MAX as int
    } else {
        value
    }
}

/// The captured USB sample for one left-channel 24-bit converter word.
pub open spec fn capture_spec(sample: int) -> int {
    saturate_i16(round_24_to_16(clamp_i24(sample)))
}

/// Convert one USB mono signed-16 sample to duplicated stereo 24-bit-in-32-bit words.
pub fn playback_mono16_to_stereo24(sample: i16) -> (words: [i32; 2])
    ensures
        words[0] == sample as int * 256,
        words[1] == sample as int * 256,
{
    let widened: i32 = (sample as i32) * 256;
    [widened, widened]
}

/// Round and saturate one signed 24-bit ADC word to USB signed-16.
pub fn capture_left24_to_mono16(sample: i32) -> (word: i16)
    ensures
        word == capture_spec(sample as int),
{
    let clamped: i32 = if sample < I24_MIN {
        I24_MIN
    } else if sample > I24_MAX {
        I24_MAX
    } else {
        sample
    };
    let rounded: i32 = if clamped >= 0 {
        (clamped + 128) / 256
    } else {
        -((128 - clamped) / 256)
    };
    assert(rounded == round_24_to_16(clamp_i24(sample as int)));
    if rounded < i16::MIN as i32 {
        i16::MIN
    } else if rounded > i16::MAX as i32 {
        i16::MAX
    } else {
        rounded as i16
    }
}

/// Ring and clock observations that never become transmit authority.
#[derive(Clone, Copy, Debug, PartialEq, Eq)]
pub struct AudioTelemetry {
    /// Playback ring fill in USB frames.
    pub playback_fill: usize,
    /// Capture ring fill in USB frames.
    pub capture_fill: usize,
    /// Total underruns.
    pub underruns: u64,
    /// Total overruns.
    pub overruns: u64,
    /// Missed DMA completions.
    pub missed_dma: u64,
    /// Diagnostic sample insertions or drops.
    pub sample_corrections: u64,
    /// Whether the I2S frame clock is currently observed.
    pub i2s_clock_running: bool,
}

impl AudioTelemetry {
    /// Whether both rings sit in the safe band and no fault counter has moved.
    pub open spec fn spec_healthy(self) -> bool {
        &&& 2 <= self.playback_fill <= 14
        &&& 2 <= self.capture_fill <= 14
        &&& self.underruns == 0
        &&& self.overruns == 0
        &&& self.missed_dma == 0
        &&& self.sample_corrections == 0
        &&& self.i2s_clock_running
    }

    /// Evaluate the accepted initial unsafe thresholds.
    pub fn healthy(self) -> (healthy: bool)
        ensures
            healthy == self.spec_healthy(),
    {
        self.playback_fill >= 2 && self.playback_fill <= 14 && self.capture_fill >= 2
            && self.capture_fill <= 14 && self.underruns == 0 && self.overruns == 0
            && self.missed_dma == 0 && self.sample_corrections == 0 && self.i2s_clock_running
    }
}

/// Capture rounds to nearest: away from saturation, the 16-bit result scaled back
/// by 256 lies within half a step (128) of the clamped 24-bit word.
pub proof fn lemma_capture_rounds_to_nearest(sample: int)
    requires
        i16::MIN <= round_24_to_16(clamp_i24(sample)) <= i16::MAX,
    ensures
        -128 <= 256 * capture_spec(sample) - clamp_i24(sample) <= 128,
{
    let c = clamp_i24(sample);
    if c >= 0 {
        let q = (c + 128) / 256;
        assert(256 * q <= c + 128 < 256 * q + 256) by (nonlinear_arith)
            requires
                q == (c + 128) / 256,
                c >= 0,
        ;
    } else {
        let q = (128 - c) / 256;
        assert(256 * q <= 128 - c < 256 * q + 256) by (nonlinear_arith)
            requires
                q == (128 - c) / 256,
                c < 0,
        ;
    }
}

/// Playback then capture gives every 16-bit sample back unchanged.
pub proof fn lemma_playback_capture_round_trip(sample: i16)
    ensures
        capture_spec(sample as int * 256) == sample as int,
{
    let x = sample as int * 256;
    if sample >= 0 {
        assert((x + 128) / 256 == sample as int) by (nonlinear_arith)
            requires
                x == sample as int * 256,
                sample >= 0,
        ;
    } else {
        assert((128 - x) / 256 == -(sample as int)) by (nonlinear_arith)
            requires
                x == sample as int * 256,
                sample < 0,
        ;
    }
}

} // verus!
