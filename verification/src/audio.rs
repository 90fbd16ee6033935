//! The audio that goes to the player: turning interleaved decoded samples
//! into the two planes of a stereo signal, and encoding a stem as MP3 at
//! 320 kbps, 44100 Hz stereo (with the LAME encoder).

use vstd::prelude::*;
use mp3lame_encoder::{Bitrate, Builder, FlushNoGap, InterleavedPcm, Quality};

verus! {

/// The sample rate the player's stems use.
pub const TARGET_SAMPLE_RATE: u32 = 44100;

/// The samples of one channel of interleaved audio with `channels` channels:
/// sample `offset` of every complete frame.
pub open spec fn plane<T>(samples: Seq<T>, channels: nat, offset: nat) -> Seq<T>
    recommends
        channels > 0,
        offset < channels,
{
    Seq::new(samples.len() / channels, |k: int| samples[k * channels + offset])
}

proof fn lemma_frame_step(i: int, n: int, len: int)
    requires
        n > 0,
        0 <= i,
        i * n <= len,
    ensures
        (i + 1) * n == i * n + n,
        i * n + n <= len <==> i < len / n,
{
    assert((i + 1) * n == i * n + n) by (nonlinear_arith);
    assert(i * n + n <= len <==> i < len / n) by (nonlinear_arith)
        requires
            n > 0,
            0 <= i,
            i * n <= len,
    {
        if i < len / n {
            assert(i + 1 <= len / n);
            assert((i + 1) * n <= (len / n) * n);
            assert((len / n) * n <= len);
        } else {
            assert(i >= len / n);
            assert(len < (len / n) * n + n);
            assert((len / n) * n + n <= i * n + n);
        }
    }
}

/// Splits interleaved samples into left and right planes: mono is
/// duplicated, stereo is split, and of more channels the first two are
/// kept. Samples of an incomplete last frame are dropped.
pub fn stereo_planes<T: Copy>(samples: &[T], channels: usize) -> (planes: (Vec<T>, Vec<T>))
    requires
        channels > 0,
    ensures
        channels == 1 ==> planes.0@ == samples@ && planes.1@ == samples@,
        channels >= 2 ==> planes.0@ == plane(samples@, channels as nat, 0) && planes.1@ == plane(
            samples@,
            channels as nat,
            1,
        ),
{
    let mut left: Vec<T> = Vec::new();
    let mut right: Vec<T> = Vec::new();
    if channels == 1 {
        let mut i: usize = 0;
        while i < samples.len()
            invariant
                0 <= i <= samples@.len(),
                left@ == samples@.take(i as int),
                right@ == samples@.take(i as int),
            decreases samples@.len() - i,
        {
            left.push(samples[i]);
            right.push(samples[i]);
            i = i + 1;
            assert(samples@.take(i as int) =~= samples@.take(i - 1).push(samples@[i - 1]));
        }
        assert(samples@.take(samples@.len() as int) =~= samples@);
        return (left, right);
    }
    let ghost n = channels as int;
    let ghost len = samples@.len() as int;
    let mut pos: usize = 0;
    let mut frame: usize = 0;
    proof {
        assert(0 * n == 0) by (nonlinear_arith);
    }
    while pos <= samples.len() && samples.len() - pos >= channels
        invariant
            channels >= 2,
            n == channels,
            len == samples@.len(),
            pos == frame * n,
            pos <= len,
            left@ == plane(samples@, channels as nat, 0).take(frame as int),
            right@ == plane(samples@, channels as nat, 1).take(frame as int),
            frame <= len / n,
        decreases len - pos,
    {
        proof {
            lemma_frame_step(frame as int, n, len);
        }
        let ghost pl = plane(samples@, channels as nat, 0);
        let ghost pr = plane(samples@, channels as nat, 1);
        left.push(samples[pos]);
        right.push(samples[pos + 1]);
        assert(pl[frame as int] == samples@[pos as int]);
        assert(pr[frame as int] == samples@[pos + 1]);
        assert(left@ =~= pl.take(frame + 1));
        assert(right@ =~= pr.take(frame + 1));
        pos = pos + channels;
        frame = frame + 1;
    }
    proof {
        lemma_frame_step(frame as int, n, len);
        assert(frame == len / n);
        assert(plane(samples@, channels as nat, 0).take(frame as int) =~= plane(samples@, channels as nat, 0));
        assert(plane(samples@, channels as nat, 1).take(frame as int) =~= plane(samples@, channels as nat, 1));
    }
    (left, right)
}

/// Whether a WAV file has the layout the encoder expects: two channels at
/// 44100 Hz.
pub fn is_encodable_wav(channels: u16, sample_rate: u32) -> (ok: bool)
    ensures
        ok == (channels == 2 && sample_rate == TARGET_SAMPLE_RATE),
{
    channels == 2 && sample_rate == TARGET_SAMPLE_RATE
}

/// The output buffer given to the MP3 encoder for `sample_count`
/// interleaved stereo samples: 1.25 bytes per frame plus 7200.
pub fn mp3_buffer_size(sample_count: usize) -> (size: usize)
    requires
        sample_count * 5 <= usize::MAX,
        sample_count * 5 / 8 + 7200 <= usize::MAX,
    ensures
        size == sample_count * 5 / 8 + 7200,
{
    sample_count * 5 / 8 + 7200
}

/// The LAME encoder's error while it is set up or built.
#[verifier::external_type_specification]
#[verifier::external_body]
pub struct ExLameBuildError(mp3lame_encoder::BuildError);

/// The LAME encoder's error while it encodes or flushes.
#[verifier::external_type_specification]
#[verifier::external_body]
pub struct ExLameEncodeError(mp3lame_encoder::EncodeError);

/// Why a stem could not be encoded as MP3.
pub enum Mp3Error {
    /// The audio is not two channels at 44100 Hz.
    UnexpectedSpec,
    /// The encoder could not be created.
    Init,
    /// Setting two channels failed.
    Channels(mp3lame_encoder::BuildError),
    /// Setting the sample rate failed.
    SampleRate(mp3lame_encoder::BuildError),
    /// Setting 320 kbps failed.
    Bitrate(mp3lame_encoder::BuildError),
    /// Setting the best quality failed.
    Quality(mp3lame_encoder::BuildError),
    /// Building the encoder failed.
    Build(mp3lame_encoder::BuildError),
    /// Encoding the samples failed.
    Encode(mp3lame_encoder::EncodeError),
    /// Flushing the encoder failed.
    Flush(mp3lame_encoder::EncodeError),
}

/// The MP3 bytes LAME gives for interleaved 16-bit stereo samples at
/// 44100 Hz, 320 kbps, best quality, flushed without a gap; `None` where
/// the encoder fails.
pub uninterp spec fn spec_lame_mp3(samples: Seq<i16>) -> Option<Seq<u8>>;

/// Encodes interleaved 16-bit stereo samples with mp3lame-encoder: a
/// `Builder` set to 2 channels, 44100 Hz, `Bitrate::Kbps320` and
/// `Quality::Best`, then `encode_to_vec` of the samples into a buffer of
/// `buf_size` bytes (LAME's worst case, 1.25 bytes per frame plus 7200),
/// then `flush_to_vec::<FlushNoGap>` with 7200 more bytes, LAME's bound for
/// a flush. The bytes are only named (`spec_lame_mp3`), as a function of
/// the samples; each failing step comes back as its own error, with the
/// encoder's error where it gives one. The crate reads a sample count that
/// is not even as a bug (a debug assertion), so it is left out.
#[verifier::external_body]
fn lame_encode(samples: &[i16], buf_size: usize) -> (r: Result<Vec<u8>, Mp3Error>)
    requires
        samples@.len() % 2 == 0,
        buf_size == samples@.len() * 5 / 8 + 7200,
    ensures
        r is Ok <==> spec_lame_mp3(samples@) is Some,
        r matches Ok(b) ==> spec_lame_mp3(samples@) == Some(b@),
        r matches Err(e) ==> !(e is UnexpectedSpec),
{
    let mut b = Builder::new().ok_or(Mp3Error::Init)?;
    b.set_num_channels(2).map_err(Mp3Error::Channels)?;
    b.set_sample_rate(44100).map_err(Mp3Error::SampleRate)?;
    b.set_brate(Bitrate::Kbps320).map_err(Mp3Error::Bitrate)?;
    b.set_quality(Quality::Best).map_err(Mp3Error::Quality)?;
    let mut e = b.build().map_err(Mp3Error::Build)?;
    let mut out: Vec<u8> = Vec::with_capacity(buf_size);
    e.encode_to_vec(InterleavedPcm(samples), &mut out).map_err(Mp3Error::Encode)?;
    out.reserve(7200);
    e.flush_to_vec::<FlushNoGap>(&mut out).map_err(Mp3Error::Flush)?;
    Ok(out)
}

/// Encodes a stem's interleaved 16-bit samples as MP3 at 320 kbps, 44100 Hz
/// stereo: audio in another layout is refused; otherwise the result is
/// what LAME gives for the samples.
pub fn encode_stem_mp3(channels: u16, sample_rate: u32, samples: &[i16]) -> (r: Result<Vec<u8>, Mp3Error>)
    requires
        channels == 2 && sample_rate == TARGET_SAMPLE_RATE ==> samples@.len() % 2 == 0 && samples@.len() * 5
            <= usize::MAX,
    ensures
        !(channels == 2 && sample_rate == TARGET_SAMPLE_RATE) ==> (r matches Err(Mp3Error::UnexpectedSpec)),
        channels == 2 && sample_rate == TARGET_SAMPLE_RATE ==> match spec_lame_mp3(samples@) {
            Some(b) => (r matches Ok(v) && v@ == b),
            None => (r matches Err(e) && !(e is UnexpectedSpec)),
        },
{
    if !is_encodable_wav(channels, sample_rate) {
        return Err(Mp3Error::UnexpectedSpec);
    }
    let buf_size = mp3_buffer_size(samples.len());
    lame_encode(samples, buf_size)
}

} // verus!
