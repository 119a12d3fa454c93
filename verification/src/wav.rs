use vstd::prelude::*;
use vstd::arithmetic::power2::{lemma2_to64, lemma_pow2_strictly_increases, lemma_pow2_unfold, pow2};
use vstd::bits::{lemma_u32_shl_is_mul, lemma_u64_shl_is_mul};

verus! {

/// How a WAV file stores its samples.
#[derive(Debug, Clone, Copy, PartialEq, Eq)]
pub enum SampleEncoding {
    Int,
    Float,
}

/// The header fields of a WAV file that decide how it is read.
#[derive(Debug, Clone, Copy, PartialEq, Eq)]
pub struct WavFormat {
    pub channels: u16,
    pub sample_rate_hz: u32,
    pub bits_per_sample: u16,
    pub encoding: SampleEncoding,
}

/// How to turn stored samples into floating-point samples: integers are read
/// at 16 or 32 bits and divided by `full_scale`; floats are taken as they are.
#[derive(Debug, Clone, Copy, PartialEq, Eq)]
#[allow(inconsistent_fields)]
pub enum SampleDecoding {
    Int16 { full_scale: u32 },
    Int32 { full_scale: u64 },
    Float32,
}

/// Why a WAV format cannot be read.
#[derive(Debug, Clone, Copy, PartialEq, Eq)]
pub enum WavFormatError {
    /// The header declares no channels or a zero sample rate.
    InvalidRateOrChannels,
    /// The encoding and sample width are not supported.
    Unsupported { encoding: SampleEncoding, bits_per_sample: u16 },
}

/// The decoding of a WAV format: a zero channel count or sample rate is
/// invalid; integer samples of 1 to 16 bits are read as 16-bit integers and
/// of 17 to 32 bits as 32-bit integers, each scaled by `2^(bits - 1)`; 32-bit
/// floats are read as they are; anything else is unsupported.
pub open spec fn spec_decoding(format: WavFormat) -> Result<SampleDecoding, WavFormatError> {
    let bits = format.bits_per_sample;
    if format.channels == 0 || format.sample_rate_hz == 0 {
        Err(WavFormatError::InvalidRateOrChannels)
    } else {
        match format.encoding {
            SampleEncoding::Int => if 1 <= bits <= 16 {
                Ok(SampleDecoding::Int16 { full_scale: pow2((bits - 1) as nat) as u32 })
            } else if 17 <= bits <= 32 {
                Ok(SampleDecoding::Int32 { full_scale: pow2((bits - 1) as nat) as u64 })
            } else {
                Err(
                    WavFormatError::Unsupported {
                        encoding: SampleEncoding::Int,
                        bits_per_sample: bits,
                    },
                )
            },
            SampleEncoding::Float => if bits == 32 {
                Ok(SampleDecoding::Float32)
            } else {
                Err(
                    WavFormatError::Unsupported {
                        encoding: SampleEncoding::Float,
                        bits_per_sample: bits,
                    },
                )
            },
        }
    }
}

/// Decides how samples of a WAV file with `format` are decoded.
pub fn plan_decoding(format: WavFormat) -> (plan: Result<SampleDecoding, WavFormatError>)
    ensures
        plan == spec_decoding(format),
{
    if format.channels == 0 || format.sample_rate_hz == 0 {
        return Err(WavFormatError::InvalidRateOrChannels);
    }
    let bits = format.bits_per_sample;
    match format.encoding {
        SampleEncoding::Int => {
            if 1 <= bits && bits <= 16 {
                let shift = (bits - 1) as u32;
                proof {
                    lemma2_to64();
                    lemma_pow2_strictly_increases(shift as nat, 16);
                    lemma_u32_shl_is_mul(1, shift);
                }
                Ok(SampleDecoding::Int16 { full_scale: 1u32 << shift })
            } else if 17 <= bits && bits <= 32 {
                let shift = (bits - 1) as u64;
                proof {
                    lemma2_to64();
                    lemma_pow2_strictly_increases(shift as nat, 32);
                    lemma_u64_shl_is_mul(1, shift);
                }
                Ok(SampleDecoding::Int32 { full_scale: 1u64 << shift })
            } else {
                Err(
                    WavFormatError::Unsupported {
                        encoding: SampleEncoding::Int,
                        bits_per_sample: bits,
                    },
                )
            }
        },
        SampleEncoding::Float => {
            if bits == 32 {
                Ok(SampleDecoding::Float32)
            } else {
                Err(
                    WavFormatError::Unsupported {
                        encoding: SampleEncoding::Float,
                        bits_per_sample: bits,
                    },
                )
            }
        },
    }
}

/// A format is rejected as invalid exactly when it declares no channels or a
/// zero sample rate.
pub proof fn lemma_invalid_iff_empty_layout(format: WavFormat)
    ensures
        (spec_decoding(format) == Err::<SampleDecoding, WavFormatError>(
            WavFormatError::InvalidRateOrChannels,
        )) <==> (format.channels == 0 || format.sample_rate_hz == 0),
{
}

/// Past that check the decoding depends only on the encoding and the sample
/// width: any two valid formats that agree on those decode alike.
pub proof fn lemma_decoding_ignores_layout(a: WavFormat, b: WavFormat)
    requires
        a.channels != 0,
        a.sample_rate_hz != 0,
        b.channels != 0,
        b.sample_rate_hz != 0,
        a.encoding == b.encoding,
        a.bits_per_sample == b.bits_per_sample,
    ensures
        spec_decoding(a) == spec_decoding(b),
{
}

/// For a valid format: 32-bit floats are read as they are; integers of 1 to
/// 16 bits are read at 16 bits and of 17 to 32 bits at 32 bits, each divided
/// by half of `2^bits`; every other width is unsupported.
pub proof fn lemma_supported_decodings(format: WavFormat)
    requires
        format.channels != 0,
        format.sample_rate_hz != 0,
    ensures
        (format.encoding == SampleEncoding::Float && format.bits_per_sample == 32) ==> spec_decoding(format) == Ok::<SampleDecoding, WavFormatError>(SampleDecoding::Float32),
        (format.encoding == SampleEncoding::Float && format.bits_per_sample != 32) ==> spec_decoding(format) is Err,
        (format.encoding == SampleEncoding::Int && 1 <= format.bits_per_sample <= 16) ==> (spec_decoding(format) matches Ok(SampleDecoding::Int16 { full_scale }) && full_scale * 2 == pow2(format.bits_per_sample as nat)),
        (format.encoding == SampleEncoding::Int && 17 <= format.bits_per_sample <= 32) ==> (spec_decoding(format) matches Ok(SampleDecoding::Int32 { full_scale }) && full_scale * 2 == pow2(format.bits_per_sample as nat)),
        (format.encoding == SampleEncoding::Int && (format.bits_per_sample == 0 || format.bits_per_sample > 32)) ==> spec_decoding(format) is Err,
{
    let bits = format.bits_per_sample;
    if format.encoding == SampleEncoding::Int && 1 <= bits <= 32 {
        lemma2_to64();
        lemma_pow2_strictly_increases((bits - 1) as nat, 32);
        lemma_pow2_unfold(bits as nat);
    }
}

} // verus!
