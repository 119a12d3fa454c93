use signalflow_rs::wav::{plan_decoding, SampleDecoding, SampleEncoding, WavFormat, WavFormatError};

fn format(channels: u16, rate: u32, bits: u16, encoding: SampleEncoding) -> WavFormat {
    WavFormat {
        channels,
        sample_rate_hz: rate,
        bits_per_sample: bits,
        encoding,
    }
}

#[test]
fn sixteen_bit_integers_scale_by_32768() {
    assert_eq!(
        plan_decoding(format(1, 16_000, 16, SampleEncoding::Int)),
        Ok(SampleDecoding::Int16 { full_scale: 32_768 })
    );
}

#[test]
fn eight_bit_integers_read_as_16_bit() {
    assert_eq!(
        plan_decoding(format(2, 8_000, 8, SampleEncoding::Int)),
        Ok(SampleDecoding::Int16 { full_scale: 128 })
    );
}

#[test]
fn one_bit_integers_scale_by_one() {
    assert_eq!(
        plan_decoding(format(1, 8_000, 1, SampleEncoding::Int)),
        Ok(SampleDecoding::Int16 { full_scale: 1 })
    );
}

#[test]
fn twenty_four_bit_integers_read_as_32_bit() {
    assert_eq!(
        plan_decoding(format(2, 48_000, 24, SampleEncoding::Int)),
        Ok(SampleDecoding::Int32 { full_scale: 8_388_608 })
    );
}

#[test]
fn thirty_two_bit_integers_scale_by_two_to_the_31() {
    assert_eq!(
        plan_decoding(format(1, 48_000, 32, SampleEncoding::Int)),
        Ok(SampleDecoding::Int32 { full_scale: 2_147_483_648 })
    );
}

#[test]
fn thirty_two_bit_floats_are_taken_as_is() {
    assert_eq!(
        plan_decoding(format(1, 44_100, 32, SampleEncoding::Float)),
        Ok(SampleDecoding::Float32)
    );
}

#[test]
fn zero_channels_or_rate_is_invalid() {
    assert_eq!(
        plan_decoding(format(0, 16_000, 16, SampleEncoding::Int)),
        Err(WavFormatError::InvalidRateOrChannels)
    );
    assert_eq!(
        plan_decoding(format(1, 0, 16, SampleEncoding::Int)),
        Err(WavFormatError::InvalidRateOrChannels)
    );
}

#[test]
fn other_widths_are_unsupported() {
    assert_eq!(
        plan_decoding(format(1, 16_000, 0, SampleEncoding::Int)),
        Err(WavFormatError::Unsupported {
            encoding: SampleEncoding::Int,
            bits_per_sample: 0
        })
    );
    assert_eq!(
        plan_decoding(format(1, 16_000, 33, SampleEncoding::Int)),
        Err(WavFormatError::Unsupported {
            encoding: SampleEncoding::Int,
            bits_per_sample: 33
        })
    );
    assert_eq!(
        plan_decoding(format(1, 16_000, 64, SampleEncoding::Float)),
        Err(WavFormatError::Unsupported {
            encoding: SampleEncoding::Float,
            bits_per_sample: 64
        })
    );
}
