use std::io::Cursor;

use mixdown::error::Error;
use mixdown::sample::{MultiChannel, Sample, SineWave, RATE};

fn sine(freq: f32, length: usize, amp: f32) -> Sample {
    Sample::Sine(SineWave::new(freq.to_bits(), length, amp.to_bits()))
}

fn decode(w: &[u32]) -> Vec<f32> {
    w.iter().map(|c| f32::from_bits(*c)).collect()
}

#[test]
fn round_trip_keeps_shape_and_samples() {
    let length = 512usize;
    let wave = sine(440.0, length, 0.5);
    let silence = sine(440.0, length, 0.0);
    let dual = Sample::Multi(MultiChannel::new_dual(&wave, &silence).unwrap());
    let bytes = dual.export().unwrap();

    let back = MultiChannel::from_wav(&bytes).unwrap();
    assert_eq!(back.channels(), 2);
    assert_eq!(back.length(), length);
    assert_eq!(back.sample_rate(), RATE);
    let left_in = decode(&dual.waveform(0).unwrap());
    let right_in = decode(&dual.waveform(1).unwrap());
    let left_out = decode(&back.waveform(0).unwrap());
    let right_out = decode(&back.waveform(1).unwrap());
    for t in 0..length {
        assert!((left_in[t] - left_out[t]).abs() < 1e-6);
        assert!((right_in[t] - right_out[t]).abs() < 1e-6);
    }
}

#[test]
fn left_channel_sounds_right_channel_silent() {
    let length = 1024usize;
    let wave = sine(440.0, length, 0.5);
    let silence = sine(440.0, length, 0.0);
    let left = Sample::Multi(MultiChannel::new_dual(&wave, &silence).unwrap());
    let bytes = left.export().unwrap();
    let back = MultiChannel::from_wav(&bytes).unwrap();
    let ch0 = decode(&back.waveform(0).unwrap());
    let ch1 = decode(&back.waveform(1).unwrap());
    assert!(ch0.iter().any(|v| v.abs() > 0.1));
    assert!(ch1.iter().all(|v| *v == 0.0));
}

#[test]
fn hound_reads_library_bytes() {
    let length = 256usize;
    let wave = sine(220.0, length, 0.25);
    let silence = sine(220.0, length, 0.0);
    let dual = Sample::Multi(MultiChannel::new_dual(&wave, &silence).unwrap());
    let bytes = dual.export().unwrap();

    let mut reader = hound::WavReader::new(Cursor::new(bytes)).unwrap();
    let spec = reader.spec();
    assert_eq!(spec.channels, 2);
    assert_eq!(spec.sample_rate, RATE);
    assert_eq!(spec.bits_per_sample, 32);
    assert_eq!(spec.sample_format, hound::SampleFormat::Float);
    assert_eq!(reader.duration() as usize, length);

    let samples: Vec<f32> = reader.samples::<f32>().map(|s| s.unwrap()).collect();
    let left = decode(&dual.waveform(0).unwrap());
    let right = decode(&dual.waveform(1).unwrap());
    assert_eq!(samples.len(), 2 * length);
    for t in 0..length {
        assert_eq!(samples[2 * t], left[t]);
        assert_eq!(samples[2 * t + 1], right[t]);
    }
}

#[test]
fn library_reads_hound_bytes() {
    let values = [0.5f32, -0.25, 0.125, 1.0, -1.0, 0.0];
    let spec = hound::WavSpec {
        channels: 1,
        sample_rate: 44100,
        bits_per_sample: 32,
        sample_format: hound::SampleFormat::Float,
    };
    let mut cursor = Cursor::new(Vec::new());
    {
        let mut writer = hound::WavWriter::new(&mut cursor, spec).unwrap();
        for v in values.iter() {
            writer.write_sample(*v).unwrap();
        }
        writer.finalize().unwrap();
    }
    let bytes = cursor.into_inner();

    let back = MultiChannel::from_wav(&bytes).unwrap();
    assert_eq!(back.channels(), 1);
    assert_eq!(back.sample_rate(), 44100);
    assert_eq!(back.length(), values.len());
    let got = decode(&back.waveform(0).unwrap());
    assert_eq!(got, values.to_vec());
}

#[test]
fn from_wav() {
    let wave = sine(440.0, 1024, 0.5);
    let silence = sine(440.0, 1024, 0.0);
    let left = Sample::Multi(MultiChannel::new_dual(&wave, &silence).unwrap());
    let bytes = left.export().unwrap();
    let song = MultiChannel::from_wav(&bytes).unwrap();
    assert!(Sample::Multi(song).export().is_ok());
}

#[test]
fn from_wav_rejects_garbage() {
    let garbage: Vec<u8> = b"this is not a wave container at all".to_vec();
    assert_eq!(MultiChannel::from_wav(&garbage).unwrap_err(), Error::ExternalIO);
    let empty: Vec<u8> = Vec::new();
    assert_eq!(MultiChannel::from_wav(&empty).unwrap_err(), Error::ExternalIO);
}

#[test]
fn accumulate_frames_and_detect_drift() {
    let mut waveforms: Vec<Vec<u32>> = Vec::new();
    let mut rate: i32 = 0;

    let frame: Vec<i16> = vec![16384, -16384, 32767, 0];
    mixdown::mp3::accumulate_frame(&mut waveforms, &mut rate, &frame, 44100, 2).unwrap();
    assert_eq!(rate, 44100);
    assert_eq!(waveforms.len(), 2);
    let ch0 = decode(&waveforms[0]);
    let ch1 = decode(&waveforms[1]);
    assert_eq!(ch0, vec![16384.0f32 / 32767.0, 1.0]);
    assert_eq!(ch1, vec![-16384.0f32 / 32767.0, 0.0]);

    // A changed sample rate is format drift.
    let r = mixdown::mp3::accumulate_frame(&mut waveforms, &mut rate, &frame, 48000, 2);
    assert_eq!(r.unwrap_err(), Error::FormatDrift);
    // A changed channel count is format drift.
    let r = mixdown::mp3::accumulate_frame(&mut waveforms, &mut rate, &frame, 44100, 4);
    assert_eq!(r.unwrap_err(), Error::FormatDrift);
    // A frame that cannot be de-interleaved is an external failure.
    let mut fresh: Vec<Vec<u32>> = Vec::new();
    let mut fresh_rate: i32 = 0;
    let r = mixdown::mp3::accumulate_frame(&mut fresh, &mut fresh_rate, &frame, 44100, 0);
    assert_eq!(r.unwrap_err(), Error::ExternalIO);
    let odd: Vec<i16> = vec![1, 2, 3];
    let r = mixdown::mp3::accumulate_frame(&mut fresh, &mut fresh_rate, &odd, 44100, 2);
    assert_eq!(r.unwrap_err(), Error::ExternalIO);

    // A second consistent frame extends every channel.
    let more: Vec<i16> = vec![0, 0];
    mixdown::mp3::accumulate_frame(&mut waveforms, &mut rate, &more, 44100, 2).unwrap();
    assert_eq!(waveforms[0].len(), 3);
    assert_eq!(waveforms[1].len(), 3);
}

#[test]
fn from_mp3_rejects_garbage() {
    let garbage: Vec<u8> = vec![0x55; 64];
    assert!(MultiChannel::from_mp3(&garbage).is_err());
}
