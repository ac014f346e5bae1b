use crate::stego::{embed_bytes, embedded, extract_bytes, extracted, fits, lsb_only_change, EmbedError};
use hound::{SampleFormat, WavReader, WavSpec, WavWriter};
use std::io::Cursor;
use vstd::prelude::*;
use vstd::string::StrSliceExecFns;

verus! {

/// The layout of a WAV container's samples.
#[derive(Debug, Clone, Copy, PartialEq, Eq, Structural)]
pub struct AudioSpec {
    pub channels: u16,
    pub sample_rate: u32,
    pub bits_per_sample: u16,
    /// Samples are IEEE floats rather than integers.
    pub float_format: bool,
}

/// What reading a WAV container's samples as signed 16-bit values gives: the
/// samples, or hound's message for why the bytes cannot be read so.
pub uninterp spec fn wav_samples_of(bytes: Seq<u8>) -> Result<Seq<i16>, Seq<char>>;

/// What reading a WAV container's header gives: its sample layout, or hound's
/// message for why the header cannot be read.
pub uninterp spec fn wav_spec_of(bytes: Seq<u8>) -> Result<AudioSpec, Seq<char>>;

/// The WAV container that holds `samples` with layout `spec`, or nothing when
/// hound refuses to write them that way.
pub uninterp spec fn wav_file_of(spec: AudioSpec, samples: Seq<i16>) -> Option<Seq<u8>>;

/// The bytes that hound stores each sample in for a given bit depth.
pub open spec fn bytes_per_sample(bits: u16) -> int {
    (bits as int + 7) / 8
}

/// A layout and sample count that hound can be asked to write without
/// panicking: a bit depth it writes (floats only at 32 bits), at least one
/// channel, a nonzero rate, a byte rate and a data length that fit its 32-bit
/// header fields.
pub open spec fn can_encode(spec: AudioSpec, n: nat) -> bool {
    &&& spec.bits_per_sample == 8 || spec.bits_per_sample == 16 || spec.bits_per_sample == 24
        || spec.bits_per_sample == 32
    &&& !spec.float_format || spec.bits_per_sample == 32
    &&& spec.channels >= 1
    &&& spec.sample_rate >= 1
    &&& spec.sample_rate * bytes_per_sample(spec.bits_per_sample) * spec.channels <= u32::MAX
    &&& n * bytes_per_sample(spec.bits_per_sample) + 64 <= u32::MAX
}

/// A layout whose 16-bit integer samples hound reads back as written.
pub open spec fn reads_back(spec: AudioSpec) -> bool {
    spec.bits_per_sample == 16 && !spec.float_format && spec.channels <= 32767
}

/// Relies on hound's `WavReader::new` and `WavReader::samples`: the header is
/// parsed and every sample read as `i16`; a failure carries hound's message.
#[verifier::external_body]
fn decode_samples(bytes: &Vec<u8>) -> (r: Result<Vec<i16>, String>)
    ensures
        r is Ok <==> wav_samples_of(bytes@) is Ok,
        r is Ok ==> wav_samples_of(bytes@) == Ok::<Seq<i16>, Seq<char>>(r->Ok_0@),
        r is Err ==> wav_samples_of(bytes@) == Err::<Seq<i16>, Seq<char>>(r->Err_0@),
{
    let mut reader = WavReader::new(Cursor::new(bytes.as_slice())).map_err(|e| e.to_string())?;
    reader.samples::<i16>().collect::<Result<Vec<i16>, _>>().map_err(|e| e.to_string())
}

/// Relies on hound's `WavReader::new` and `WavReader::spec`: the layout that
/// the header states; a failure carries hound's message.
#[verifier::external_body]
fn decode_spec(bytes: &Vec<u8>) -> (r: Result<AudioSpec, String>)
    ensures
        r is Ok <==> wav_spec_of(bytes@) is Ok,
        r is Ok ==> wav_spec_of(bytes@) == Ok::<AudioSpec, Seq<char>>(r->Ok_0),
        r is Err ==> wav_spec_of(bytes@) == Err::<AudioSpec, Seq<char>>(r->Err_0@),
{
    let s = WavReader::new(Cursor::new(bytes.as_slice())).map_err(|e| e.to_string())?.spec();
    Ok(AudioSpec {
        channels: s.channels,
        sample_rate: s.sample_rate,
        bits_per_sample: s.bits_per_sample,
        float_format: s.sample_format == SampleFormat::Float,
    })
}

/// Relies on hound's `WavWriter::new`, `WavWriter::write_sample` and
/// `WavWriter::finalize`: a container with the given layout holding the
/// samples in order, written the same way for the same arguments. For 16-bit
/// integer samples hound's reader gives back the layout and the samples.
#[verifier::external_body]
fn encode_samples(samples: &Vec<i16>, spec: AudioSpec) -> (r: Result<Vec<u8>, String>)
    requires
        can_encode(spec, samples@.len()),
    ensures
        r is Ok <==> wav_file_of(spec, samples@) is Some,
        r is Ok ==> wav_file_of(spec, samples@) == Some(r->Ok_0@),
        r is Ok && reads_back(spec) ==> wav_samples_of(r->Ok_0@) is Ok && wav_samples_of(r->Ok_0@)->Ok_0 == samples@,
        r is Ok && reads_back(spec) ==> wav_spec_of(r->Ok_0@) is Ok && wav_spec_of(r->Ok_0@)->Ok_0 == spec,
{
    let format = if spec.float_format { SampleFormat::Float } else { SampleFormat::Int };
    let hs = WavSpec {
        channels: spec.channels,
        sample_rate: spec.sample_rate,
        bits_per_sample: spec.bits_per_sample,
        sample_format: format,
    };
    let mut buffer: Vec<u8> = Vec::new();
    let mut writer = WavWriter::new(Cursor::new(&mut buffer), hs).map_err(|e| e.to_string())?;
    for &s in samples.iter() {
        writer.write_sample(s).map_err(|e| e.to_string())?;
    }
    writer.finalize().map_err(|e| e.to_string())?;
    Ok(buffer)
}

/// Tells whether hound can be asked to write `n` samples with layout `spec`.
pub fn is_encodable(spec: AudioSpec, n: usize) -> (r: bool)
    ensures
        r == can_encode(spec, n as nat),
{
    let bits = spec.bits_per_sample;
    if !(bits == 8 || bits == 16 || bits == 24 || bits == 32) {
        return false;
    }
    if spec.float_format && bits != 32 {
        return false;
    }
    if spec.channels < 1 || spec.sample_rate < 1 {
        return false;
    }
    let width: u64 = (bits as u64 + 7) / 8;
    assert(1 <= width <= 4 && width == bytes_per_sample(bits));
    let rate: u64 = spec.sample_rate as u64;
    let chans: u64 = spec.channels as u64;
    assert(rate * width <= 0x4_0000_0000) by (nonlinear_arith)
        requires
            rate <= 0xFFFF_FFFF,
            width <= 4,
    ;
    let rate_bytes: u64 = rate * width;
    assert(rate_bytes * chans <= 0x4_0000_0000 * 0x1_0000) by (nonlinear_arith)
        requires
            rate_bytes <= 0x4_0000_0000,
            chans <= 0xFFFF,
    ;
    if rate_bytes * chans > 0xFFFF_FFFF {
        return false;
    }
    if n as u64 > 0xFFFF_FFFF {
        assert(n * bytes_per_sample(bits) >= n) by (nonlinear_arith)
            requires
                bytes_per_sample(bits) >= 1,
        ;
        return false;
    }
    assert(n as u64 * width <= 0x4_0000_0000) by (nonlinear_arith)
        requires
            n <= 0xFFFF_FFFF,
            width <= 4,
    ;
    n as u64 * width + 64 <= 0xFFFF_FFFF
}

/// Mono, 44.1 kHz, 16-bit integer samples.
pub open spec fn default_spec_value() -> AudioSpec {
    AudioSpec { channels: 1, sample_rate: 44100, bits_per_sample: 16, float_format: false }
}

/// The layout used when none is given: mono, 44.1 kHz, 16-bit integers.
pub fn default_spec() -> (r: AudioSpec)
    ensures
        r == default_spec_value(),
{
    AudioSpec { channels: 1, sample_rate: 44100, bits_per_sample: 16, float_format: false }
}

/// The container that holding `payload` under `key` turns `bytes` into: its
/// samples with the frame written in, rewritten with the layout its header
/// states; nothing when the container cannot be read, the payload does not
/// fit, or the rewrite cannot be made.
pub open spec fn rewritten(bytes: Seq<u8>, payload: Seq<u8>, key: Seq<char>) -> Option<Seq<u8>> {
    match (wav_samples_of(bytes), wav_spec_of(bytes)) {
        (Ok(s), Ok(spec)) => if fits(payload.len(), s.len()) && can_encode(spec, s.len()) {
            wav_file_of(spec, embedded(s, payload, key))
        } else {
            None
        },
        _ => None,
    }
}

/// A WAV container held in memory. Rewrites keep the layout its header states.
#[derive(Debug, Clone)]
pub struct WavBuffer {
    /// The container's bytes.
    pub buffer: Vec<u8>,
    /// The layout that the container was built with, where it is known.
    pub spec: Option<AudioSpec>,
}

impl WavBuffer {
    /// Wraps the bytes of a container, with the default layout recorded.
    pub fn new(buffer: Vec<u8>) -> (r: WavBuffer)
        ensures
            r.buffer@ == buffer@,
            r.spec == Some(default_spec_value()),
    {
        WavBuffer { buffer, spec: Some(default_spec()) }
    }

    /// The layout that the container's header states.
    pub fn get_spec(&self) -> (r: Result<AudioSpec, String>)
        ensures
            r is Ok <==> wav_spec_of(self.buffer@) is Ok,
            r is Ok ==> wav_spec_of(self.buffer@) == Ok::<AudioSpec, Seq<char>>(r->Ok_0),
            r is Err ==> wav_spec_of(self.buffer@) == Err::<AudioSpec, Seq<char>>(r->Err_0@),
    {
        decode_spec(&self.buffer)
    }

    /// All samples of the container, as signed 16-bit values.
    pub fn read_samples(&self) -> (r: Result<Vec<i16>, String>)
        ensures
            r is Ok <==> wav_samples_of(self.buffer@) is Ok,
            r is Ok ==> wav_samples_of(self.buffer@) == Ok::<Seq<i16>, Seq<char>>(r->Ok_0@),
            r is Err ==> wav_samples_of(self.buffer@) == Err::<Seq<i16>, Seq<char>>(r->Err_0@),
    {
        decode_samples(&self.buffer)
    }

    /// A new container that holds `samples` with layout `spec`. Fails when
    /// hound cannot write that layout or refuses the samples.
    pub fn write_samples(samples: &Vec<i16>, spec: AudioSpec) -> (r: Result<WavBuffer, String>)
        ensures
            r is Ok <==> can_encode(spec, samples@.len()) && wav_file_of(spec, samples@) is Some,
            r is Ok ==> wav_file_of(spec, samples@) == Some(r->Ok_0.buffer@),
            r is Ok ==> r->Ok_0.spec == Some(default_spec_value()),
            r is Ok && reads_back(spec) ==> wav_samples_of(r->Ok_0.buffer@) == Ok::<
                Seq<i16>,
                Seq<char>,
            >(samples@),
            r is Ok && reads_back(spec) ==> wav_spec_of(r->Ok_0.buffer@) == Ok::<AudioSpec, Seq<char>>(
                spec,
            ),
    {
        if !is_encodable(spec, samples.len()) {
            return Err(String::from_str("hound cannot write this layout"));
        }
        let bytes = encode_samples(samples, spec)?;
        Ok(WavBuffer::new(bytes))
    }

    /// Hides `bytes` in the container's samples along the order that `key`
    /// selects, and rewrites the container with the layout its header states.
    /// Succeeds exactly when the container reads, the payload fits and hound
    /// writes the result; a read error is passed on as it came. On failure the
    /// container is left as it was.
    pub fn embed_bytes(&mut self, bytes: &Vec<u8>, key: &str) -> (r: Result<(), String>)
        ensures
            r is Ok <==> rewritten(old(self).buffer@, bytes@, key@) is Some,
            r is Ok ==> rewritten(old(self).buffer@, bytes@, key@) == Some(final(self).buffer@),
            r is Err ==> *final(self) == *old(self),
            final(self).spec == old(self).spec,
            wav_samples_of(old(self).buffer@) is Err ==> r is Err && wav_samples_of(
                old(self).buffer@,
            ) == Err::<Seq<i16>, Seq<char>>(r->Err_0@),
            r is Ok ==> lsb_only_change(
                wav_samples_of(old(self).buffer@)->Ok_0,
                embedded(wav_samples_of(old(self).buffer@)->Ok_0, bytes@, key@),
                key@,
                bytes@.len(),
            ),
            r is Ok ==> extracted(
                embedded(wav_samples_of(old(self).buffer@)->Ok_0, bytes@, key@),
                key@,
            ) == bytes@,
            r is Ok && reads_back(wav_spec_of(old(self).buffer@)->Ok_0) ==> wav_samples_of(
                final(self).buffer@,
            ) == Ok::<Seq<i16>, Seq<char>>(
                embedded(wav_samples_of(old(self).buffer@)->Ok_0, bytes@, key@),
            ),
            r is Ok && 16 + 8 * bytes@.len() < wav_samples_of(old(self).buffer@)->Ok_0.len()
                && extracted(wav_samples_of(old(self).buffer@)->Ok_0, key@) == bytes@ ==> embedded(
                wav_samples_of(old(self).buffer@)->Ok_0,
                bytes@,
                key@,
            ) == wav_samples_of(old(self).buffer@)->Ok_0,
            r is Ok && reads_back(wav_spec_of(old(self).buffer@)->Ok_0) ==> wav_spec_of(
                final(self).buffer@,
            ) == wav_spec_of(old(self).buffer@),
    {
        let mut samples = self.read_samples()?;
        let spec = self.get_spec()?;
        match embed_bytes(&mut samples, bytes, key) {
            Ok(()) => {},
            Err(EmbedError::CapacityExceeded { .. }) => {
                return Err(String::from_str("the payload does not fit in the carrier"));
            },
        }
        if !is_encodable(spec, samples.len()) {
            return Err(String::from_str("hound cannot write this layout"));
        }
        let written = encode_samples(&samples, spec)?;
        self.buffer = written;
        Ok(())
    }

    /// Reads the payload that `key` selects from the container's samples.
    /// Fails only when the samples cannot be read, with the read error as it
    /// came.
    pub fn extract_bytes(&self, key: &str) -> (r: Result<Vec<u8>, String>)
        ensures
            r is Ok <==> wav_samples_of(self.buffer@) is Ok,
            r is Ok ==> r->Ok_0@ == extracted(wav_samples_of(self.buffer@)->Ok_0, key@),
            r is Err ==> wav_samples_of(self.buffer@) == Err::<Seq<i16>, Seq<char>>(r->Err_0@),
    {
        let samples = self.read_samples()?;
        Ok(extract_bytes(&samples, key))
    }
}

} // verus!
