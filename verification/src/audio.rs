//! Decoded audio and the decisions taken while decoding it: which track
//! supplies the sample rate, which packets are kept, and when decoding has
//! produced nothing usable.

use vstd::prelude::*;

verus! {

/// Mono audio: one `f32` sample per instant, held by bit pattern
/// (`f32::to_bits`), normalised to `-1.0..=1.0` by the decoder.
#[derive(Debug)]
pub struct AudioData {
    /// Bit patterns of the mono samples, in time order.
    pub samples: Vec<u32>,
    /// Sample rate in Hz.
    pub sample_rate: u32,
}

impl AudioData {
    /// Number of samples.
    pub fn len(&self) -> (n: usize)
        ensures
            n == self.samples@.len(),
    {
        self.samples.len()
    }

    /// Whether there are no samples.
    pub fn is_empty(&self) -> (empty: bool)
        ensures
            empty == (self.samples@.len() == 0),
    {
        self.samples.len() == 0
    }
}

/// Why a file could not be turned into audio, for the failures that the
/// decoding decisions themselves detect.
#[derive(Debug, PartialEq, Eq, Structural, Clone, Copy)]
pub enum LoadError {
    /// The container holds no default audio track.
    NoTrack,
    /// The default track does not state its sample rate.
    UnknownSampleRate,
    /// Every packet failed or the stream was empty.
    NoSamples,
}

impl LoadError {
    /// The message reported for the error.
    pub fn message(&self) -> (m: &'static str)
        ensures
            *self == LoadError::NoTrack ==> m@ == "No audio tracks found in file"@,
            *self == LoadError::UnknownSampleRate ==> m@ == "Unknown sample rate"@,
            *self == LoadError::NoSamples ==> m@ == "No audio samples decoded"@,
    {
        match self {
            LoadError::NoTrack => "No audio tracks found in file",
            LoadError::UnknownSampleRate => "Unknown sample rate",
            LoadError::NoSamples => "No audio samples decoded",
        }
    }
}

/// Picks the sample rate from the container's default track:
/// `default_track` is `None` when there is no default track, and otherwise
/// holds the sample rate that the track's codec parameters state, if any.
pub fn track_sample_rate(default_track: Option<Option<u32>>) -> (r: Result<u32, LoadError>)
    ensures
        r == match default_track {
            None => Err(LoadError::NoTrack),
            Some(None) => Err(LoadError::UnknownSampleRate),
            Some(Some(rate)) => Ok::<u32, LoadError>(rate),
        },
{
    match default_track {
        None => Err(LoadError::NoTrack),
        Some(None) => Err(LoadError::UnknownSampleRate),
        Some(Some(rate)) => Ok(rate),
    }
}

/// What reading and decoding the next packet gave.
pub enum PacketOutcome {
    /// No further packet could be read: the stream ended (or reading failed).
    EndOfStream,
    /// The packet was read but could not be decoded.
    Undecodable,
    /// The packet decoded to these mono samples.
    Decoded(Vec<u32>),
}

/// Takes the outcome of one packet into the samples decoded so far and says
/// whether decoding goes on: the stream's end stops it, an undecodable packet
/// is skipped, and decoded samples are appended in order.
pub fn absorb_packet(decoded: &mut Vec<u32>, outcome: PacketOutcome) -> (more: bool)
    ensures
        outcome is EndOfStream ==> !more && final(decoded)@ == old(decoded)@,
        outcome is Undecodable ==> more && final(decoded)@ == old(decoded)@,
        outcome matches PacketOutcome::Decoded(s) ==> more && final(decoded)@ == old(decoded)@ + s@,
{
    match outcome {
        PacketOutcome::EndOfStream => false,
        PacketOutcome::Undecodable => true,
        PacketOutcome::Decoded(mut samples) => {
            decoded.append(&mut samples);
            true
        },
    }
}

/// Builds the audio from what decoding produced; fails when no sample was
/// decoded.
pub fn finish_decoding(samples: Vec<u32>, sample_rate: u32) -> (r: Result<AudioData, LoadError>)
    ensures
        samples@.len() == 0 <==> r == Err::<AudioData, LoadError>(LoadError::NoSamples),
        r is Ok <==> samples@.len() > 0,
        samples@.len() > 0 ==> r == Ok::<AudioData, LoadError>(
            AudioData { samples: samples, sample_rate: sample_rate },
        ),
{
    if samples.len() == 0 {
        Err(LoadError::NoSamples)
    } else {
        Ok(AudioData { samples, sample_rate })
    }
}

} // verus!
