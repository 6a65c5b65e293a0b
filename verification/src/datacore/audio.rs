//! `datacore::audio` submodule supplies instruments that help in work with audio data:
//! the [`Volume`] newtype which encapsulates volume setting, and audio system settings
//! ([`SampleFormat`], [`AudioChannels`]).
//!

use vstd::prelude::*;

verus! {

/// Maximal volume of the audio mixer.
///
pub const MAX_VOLUME: u8 = 128;

/// Default frequency at which audio is played (Hz).
///
pub const DEFAULT_FREQUENCY: u32 = 22050;

/// Default chunk size (middle ground between latency and compatibility).
///
pub const DEFAULT_CHUNK_SIZE: u32 = 512;

/// [`Volume`] is a newtype that restricts volume values to [0; 128].
///
#[derive(Copy, Clone, Debug)]
pub struct Volume(u8);

impl Volume {
    /// Volume as a number in [0; 128].
    ///
    pub closed spec fn spec_get(self) -> u8 {
        self.0
    }

    /// Volume stays in [0; 128].
    ///
    #[verifier::type_invariant]
    spec fn below_max(self) -> bool {
        self.0 <= MAX_VOLUME
    }

    /// Minimal volume (silence).
    ///
    pub fn silence() -> (volume: Volume)
        ensures
            volume.spec_get() == 0,
    {
        Volume(0)
    }

    /// Maximal volume.
    ///
    pub fn max() -> (volume: Volume)
        ensures
            volume.spec_get() == MAX_VOLUME,
    {
        Volume(MAX_VOLUME)
    }

    /// Returns corresponding `u8` value.
    ///
    pub fn get(self) -> (value: u8)
        ensures
            value == self.spec_get(),
            value <= MAX_VOLUME,
    {
        proof {
            use_type_invariant(self);
        }
        self.0
    }
}

/// Volume that a `u8` value is clamped to.
///
pub open spec fn clamped_volume(value: u8) -> u8 {
    if value > MAX_VOLUME {
        MAX_VOLUME
    } else {
        value
    }
}

impl From<u8> for Volume {
    /// Clamps `value` to [0; 128].
    ///
    fn from(value: u8) -> (volume: Volume)
        ensures
            volume.spec_get() == clamped_volume(value),
    {
        if value > MAX_VOLUME {
            Volume(MAX_VOLUME)
        } else {
            Volume(value)
        }
    }
}

impl vstd::std_specs::convert::FromSpecImpl<u8> for Volume {
    open spec fn obeys_from_spec() -> bool {
        true
    }

    closed spec fn from_spec(value: u8) -> Volume {
        Volume(clamped_volume(value))
    }
}

impl Default for Volume {
    /// The default volume is silence.
    ///
    fn default() -> (volume: Volume)
        ensures
            volume.spec_get() == 0,
    {
        Volume(0)
    }
}

/// [`SampleFormat`] enum lists possible audio formats that are used for decoding samples.
///
/// Abbreviations:
/// 1. `F` stands for float, `S` for signed and `U` for unsigned.
/// 2. `16`/`32` - how many bits are used in sample size.
/// 3. `LSB` stands for least significant byte (little-endian order),
///    `MSB` for most significant byte (big-endian order).
///
#[derive(Copy, Clone, Debug, PartialEq, Eq, Structural, Hash)]
pub enum SampleFormat {
    /// 32-bit floating point samples in little-endian byte order.
    ///
    F32LSB,
    /// 32-bit floating point samples in big-endian byte order.
    ///
    F32MSB,
    /// Signed 16-bit samples in little-endian byte order.
    ///
    S16LSB,
    /// Signed 16-bit samples in big-endian byte order.
    ///
    S16MSB,
    /// Signed 32-bit samples in little-endian byte order.
    ///
    S32LSB,
    /// Signed 32-bit samples in big-endian byte order.
    ///
    S32MSB,
    /// Unsigned 16-bit samples in little-endian byte order.
    ///
    U16LSB,
    /// Unsigned 16-bit samples in big-endian byte order.
    ///
    U16MSB,
}

impl SampleFormat {
    /// Number of bits in one sample.
    ///
    pub open spec fn spec_sample_bits(self) -> u8 {
        match self {
            SampleFormat::S16LSB | SampleFormat::S16MSB | SampleFormat::U16LSB | SampleFormat::U16MSB => 16u8,
            _ => 32u8,
        }
    }

    /// Number of bits in one sample.
    ///
    pub fn sample_bits(self) -> (bits: u8)
        ensures
            bits == self.spec_sample_bits(),
            bits == (match self {
                SampleFormat::S16LSB | SampleFormat::S16MSB | SampleFormat::U16LSB | SampleFormat::U16MSB => 16u8,
                _ => 32u8,
            }),
    {
        match self {
            SampleFormat::S16LSB | SampleFormat::S16MSB | SampleFormat::U16LSB | SampleFormat::U16MSB => 16,
            _ => 32,
        }
    }
}

impl Default for SampleFormat {
    /// Signed 32-bit samples in the byte order of the little-endian targets the engine runs on.
    ///
    fn default() -> (format: SampleFormat)
        ensures
            format == SampleFormat::S32LSB,
    {
        SampleFormat::S32LSB
    }
}

/// [`AudioChannels`] enum lists number of channels that can be used (1 is mono, 2 is stereo, etc.).
///
#[derive(Copy, Clone, Debug, PartialEq, Eq, Structural, Hash)]
pub enum AudioChannels {
    /// Mono (only 1 channel).
    ///
    Mono,
    /// Stereo (2 channels).
    ///
    Stereo,
    /// Quad (4 channels).
    ///
    Quad,
    /// 5.1 (6 channels).
    ///
    FiveOne,
    /// 6.1 (7 channels).
    ///
    SixOne,
    /// 7.1 (8 channels).
    ///
    SevenOne,
}

impl AudioChannels {
    /// Number of channels.
    ///
    pub open spec fn spec_count(self) -> u8 {
        match self {
            AudioChannels::Mono => 1,
            AudioChannels::Stereo => 2,
            AudioChannels::Quad => 4,
            AudioChannels::FiveOne => 6,
            AudioChannels::SixOne => 7,
            AudioChannels::SevenOne => 8,
        }
    }

    /// Number of channels.
    ///
    pub fn count(self) -> (count: u8)
        ensures
            count == self.spec_count(),
    {
        match self {
            AudioChannels::Mono => 1,
            AudioChannels::Stereo => 2,
            AudioChannels::Quad => 4,
            AudioChannels::FiveOne => 6,
            AudioChannels::SixOne => 7,
            AudioChannels::SevenOne => 8,
        }
    }
}

impl Default for AudioChannels {
    /// Stereo is the default.
    ///
    fn default() -> (channels: AudioChannels)
        ensures
            channels == AudioChannels::Stereo,
    {
        AudioChannels::Stereo
    }
}

/// [`AudioSystem`] is a global handler for audio metadata: the settings that the audio device
/// is opened with.
///
#[derive(Copy, Clone, Debug)]
pub struct AudioSystem {
    /// Frequency to playback audio at (Hz).
    ///
    pub frequency: u32,
    /// Sample format.
    ///
    pub format: SampleFormat,
    /// Number of channels.
    ///
    pub channels: AudioChannels,
    /// Audio buffer size in sample frames.
    ///
    pub chunk_size: u32,
}

impl Default for AudioSystem {
    /// The recommended settings.
    ///
    fn default() -> (system: AudioSystem)
        ensures
            system.frequency == DEFAULT_FREQUENCY,
            system.format == SampleFormat::S32LSB,
            system.channels == AudioChannels::Stereo,
            system.chunk_size == DEFAULT_CHUNK_SIZE,
    {
        AudioSystem {
            frequency: DEFAULT_FREQUENCY,
            format: SampleFormat::S32LSB,
            channels: AudioChannels::Stereo,
            chunk_size: DEFAULT_CHUNK_SIZE,
        }
    }
}

/// Law: a volume is at most the maximal volume, values in range are kept as they are,
/// and clamping a clamped value changes nothing.
///
pub proof fn law_volume_clamping(value: u8)
    ensures
        clamped_volume(value) <= MAX_VOLUME,
        value <= MAX_VOLUME ==> clamped_volume(value) == value,
        clamped_volume(clamped_volume(value)) == clamped_volume(value),
{
}

/// Number of full-range channels of a channel layout: the number before the dot of its name
/// (`5.1` has 5), or its whole number of channels where the name has no dot.
///
pub open spec fn full_range_channels(channels: AudioChannels) -> nat {
    match channels {
        AudioChannels::Mono => 1,
        AudioChannels::Stereo => 2,
        AudioChannels::Quad => 4,
        AudioChannels::FiveOne => 5,
        AudioChannels::SixOne => 6,
        AudioChannels::SevenOne => 7,
    }
}

/// Number of low-frequency channels of a channel layout: the number after the dot of its name
/// (`5.1` has 1), none where the name has no dot.
///
pub open spec fn low_frequency_channels(channels: AudioChannels) -> nat {
    match channels {
        AudioChannels::FiveOne | AudioChannels::SixOne | AudioChannels::SevenOne => 1,
        _ => 0,
    }
}

/// Law: a channel layout has as many channels as its full-range and low-frequency channels
/// together, so different layouts have different counts, and each surround layout
/// (`5.1`, `6.1`, `7.1`) has one channel more than the one before it.
///
pub proof fn law_channel_count(channels: AudioChannels, other: AudioChannels)
    ensures
        channels.spec_count() == full_range_channels(channels) + low_frequency_channels(channels),
        channels != other ==> channels.spec_count() != other.spec_count(),
        AudioChannels::SixOne.spec_count() == AudioChannels::FiveOne.spec_count() + 1,
        AudioChannels::SevenOne.spec_count() == AudioChannels::SixOne.spec_count() + 1,
        AudioChannels::Stereo.spec_count() == 2 * AudioChannels::Mono.spec_count(),
        AudioChannels::Quad.spec_count() == 2 * AudioChannels::Stereo.spec_count(),
{
}

/// The sample format with the other byte order (`LSB` and `MSB` swapped).
///
pub open spec fn other_byte_order(format: SampleFormat) -> SampleFormat {
    match format {
        SampleFormat::F32LSB => SampleFormat::F32MSB,
        SampleFormat::F32MSB => SampleFormat::F32LSB,
        SampleFormat::S16LSB => SampleFormat::S16MSB,
        SampleFormat::S16MSB => SampleFormat::S16LSB,
        SampleFormat::S32LSB => SampleFormat::S32MSB,
        SampleFormat::S32MSB => SampleFormat::S32LSB,
        SampleFormat::U16LSB => SampleFormat::U16MSB,
        SampleFormat::U16MSB => SampleFormat::U16LSB,
    }
}

/// Law: the byte order does not change the size of a sample, a sample is a whole number of
/// bytes, and signed and unsigned 16-bit samples have the same size, half that of 32-bit ones.
///
pub proof fn law_sample_bits(format: SampleFormat)
    ensures
        other_byte_order(format).spec_sample_bits() == format.spec_sample_bits(),
        format.spec_sample_bits() % 8 == 0,
        SampleFormat::S16LSB.spec_sample_bits() == SampleFormat::U16LSB.spec_sample_bits(),
        2 * SampleFormat::S16LSB.spec_sample_bits() == SampleFormat::S32LSB.spec_sample_bits(),
        SampleFormat::S32LSB.spec_sample_bits() == SampleFormat::F32LSB.spec_sample_bits(),
        SampleFormat::S32LSB.spec_sample_bits() == 32,
{
}

} // verus!
