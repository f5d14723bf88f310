use mixdown::error::Error;
use mixdown::sample::{Composition, MultiChannel, Sample, SineWave, WaveForm, RATE};

fn sine(freq: f32, length: usize, amp: f32) -> Sample {
    Sample::Sine(SineWave::new(freq.to_bits(), length, amp.to_bits()))
}

fn wave_of(values: &[f32]) -> Sample {
    let codes: Vec<u32> = values.iter().map(|v| v.to_bits()).collect();
    Sample::Wave(WaveForm::from(&codes))
}

fn decode(w: &[u32]) -> Vec<f32> {
    w.iter().map(|c| f32::from_bits(*c)).collect()
}

#[test]
fn sine_440_to_wav() {
    let wave = sine(440.0, (RATE / 16) as usize, 0.5);
    assert!(wave.export().is_ok());
}

#[test]
fn left_sine() {
    let wave = sine(440.0, 2048, 0.5);
    let silence = sine(440.0, 2048, 0.0);
    let left = MultiChannel::new_dual(&wave, &silence).unwrap();
    assert!(Sample::Multi(left).export().is_ok());
}

#[test]
fn right_sine() {
    let wave = sine(440.0, 2048, 0.5);
    let silence = sine(440.0, 2048, 0.0);
    let right = MultiChannel::new_dual(&silence, &wave).unwrap();
    assert!(Sample::Multi(right).export().is_ok());
}

#[test]
fn switch_lr_sine() {
    let wave = sine(440.0, 1378, 0.5);
    let silence = sine(440.0, 1378, 0.0);
    let left = Sample::Multi(MultiChannel::new_dual(&wave, &silence).unwrap());
    let right = Sample::Multi(MultiChannel::new_dual(&silence, &wave).unwrap());
    let mut comp = Composition::new();
    let left_id = comp.add_track(&left, 0).unwrap();
    let right_id = comp.add_track_sec(&right, 1.0f32.to_bits()).unwrap();
    comp.add_track_id_sec(left_id, 2.0f32.to_bits()).unwrap();
    comp.add_track_id_sec(right_id, 3.0f32.to_bits()).unwrap();
    comp.add_track_id_sec(left_id, 4.0f32.to_bits()).unwrap();
    assert_eq!(comp.length(), 4 * RATE as usize + 1378);
    assert!(Sample::Comp(comp).export().is_ok());
}

#[test]
fn sine_starts_at_zero_with_exact_length() {
    let wave = sine(440.0, 1000, 0.5);
    let w = wave.waveform(0).unwrap();
    assert_eq!(w.len(), 1000);
    assert_eq!(f32::from_bits(w[0]), 0.0);
    assert!(wave.waveform(1).is_none());
    // A quarter period of 440 Hz at the default rate is near step 25.
    let v = f32::from_bits(w[25]);
    assert!((v - 0.5).abs() < 2e-3);
}

#[test]
fn sine_reduces_large_phases() {
    // At 20 kHz the phase passes two pi within a few steps.
    let wave = sine(20000.0, 10, 0.5);
    let w = wave.waveform(0).unwrap();
    let phase = 2.0 * std::f32::consts::PI * 20000.0 * (3.0 / 44100.0);
    let v = f32::from_bits(w[3]);
    assert!((v - 0.5 * phase.sin()).abs() < 1e-2);
}

#[test]
fn duplicate_preserves_waveforms() {
    let wave = sine(330.0, 512, 0.25);
    let silence = sine(330.0, 512, 0.0);
    let dual = Sample::Multi(MultiChannel::new_dual(&wave, &silence).unwrap());
    let copy = dual.box_clone();
    assert_eq!(copy.channels(), dual.channels());
    assert_eq!(copy.length(), dual.length());
    assert_eq!(copy.sample_rate(), dual.sample_rate());
    assert_eq!(copy.waveform(0).unwrap(), dual.waveform(0).unwrap());
    assert_eq!(copy.waveform(1).unwrap(), dual.waveform(1).unwrap());

    let mut comp = Composition::new();
    comp.add_track(&dual, 7).unwrap();
    let comp = Sample::Comp(comp);
    let comp_copy = comp.box_clone();
    assert_eq!(comp_copy.waveform(0).unwrap(), comp.waveform(0).unwrap());
}

#[test]
fn new_dual_rejects_shape_mismatch() {
    let a = sine(440.0, 100, 0.5);
    let b = sine(440.0, 101, 0.5);
    assert_eq!(MultiChannel::new_dual(&a, &b).unwrap_err(), Error::ShapeMismatch);

    // A different sample rate on one side.
    let codes: Vec<u32> = vec![0u32; 100];
    let other_rate = Sample::Multi(MultiChannel::from_interleaved(1, 22050, &codes).unwrap());
    assert_eq!(MultiChannel::new_dual(&a, &other_rate).unwrap_err(), Error::ShapeMismatch);

    // A non-mono side.
    let dual = Sample::Multi(MultiChannel::new_dual(&a, &sine(440.0, 100, 0.0)).unwrap());
    assert_eq!(MultiChannel::new_dual(&dual, &a).unwrap_err(), Error::ShapeMismatch);
    assert_eq!(MultiChannel::new_dual(&a, &dual).unwrap_err(), Error::ShapeMismatch);
}

#[test]
fn composition_order_independent() {
    // Overlapping schedules with exactly representable values.
    let a = wave_of(&[0.5, 0.25, -1.0]);
    let b = wave_of(&[0.125, 8.0, 2.5]);

    let mut ab = Composition::new();
    ab.add_track(&a, 0).unwrap();
    ab.add_track(&b, 1).unwrap();
    let mut ba = Composition::new();
    ba.add_track(&b, 1).unwrap();
    ba.add_track(&a, 0).unwrap();
    assert_eq!(ab.length(), ba.length());
    assert_eq!(ab.waveform(0).unwrap(), ba.waveform(0).unwrap());

    // Disjoint schedules.
    let mut ab2 = Composition::new();
    ab2.add_track(&a, 0).unwrap();
    ab2.add_track(&b, 10).unwrap();
    let mut ba2 = Composition::new();
    ba2.add_track(&b, 10).unwrap();
    ba2.add_track(&a, 0).unwrap();
    assert_eq!(ab2.waveform(0).unwrap(), ba2.waveform(0).unwrap());
}

#[test]
fn composition_length_monotonic() {
    let track = wave_of(&[0.1; 10]);
    let mut comp = Composition::new();
    let id = comp.add_track(&track, 0).unwrap();
    assert_eq!(comp.length(), 10);
    comp.add_track_id(id, 5).unwrap();
    assert_eq!(comp.length(), 15);
    comp.add_track_id(id, 2).unwrap();
    assert_eq!(comp.length(), 15);
    assert_eq!(comp.add_track_id(99, 0).unwrap_err(), Error::UnknownTrack);
}

#[test]
fn composition_rejects_mismatched_tracks() {
    let mono = wave_of(&[0.5; 8]);
    let silence = sine(440.0, 8, 0.0);
    let dual = Sample::Multi(MultiChannel::new_dual(&mono, &silence).unwrap());
    let mut comp = Composition::new();
    comp.add_track(&mono, 0).unwrap();
    assert_eq!(comp.add_track(&dual, 0).unwrap_err(), Error::ShapeMismatch);
}

#[test]
fn composition_three_offsets() {
    let vals: Vec<f32> = (0..50).map(|i| (i as f32) * 0.125 - 2.0).collect();
    let track = wave_of(&vals);
    let mut comp = Composition::new();
    let id = comp.add_track(&track, 0).unwrap();
    comp.add_track_id(id, 44100).unwrap();
    comp.add_track_id(id, 88200).unwrap();
    assert_eq!(comp.length(), 88200 + 50);

    let track_w = decode(&track.waveform(0).unwrap());
    let out = decode(&comp.waveform(0).unwrap());
    assert_eq!(out.len(), 88250);
    for t in 0..out.len() {
        let mut expected = 0.0f32;
        for &start in &[0usize, 44100, 88200] {
            if t >= start && t < start + track_w.len() {
                expected += track_w[t - start];
            }
        }
        assert_eq!(out[t], expected);
    }
}

#[test]
fn sub_range_crops_every_channel() {
    let vals = [0.0f32, 0.5, 1.0, -0.5, 0.25, 2.0, -2.0, 8.0];
    let w = wave_of(&vals);
    let cropped = w.sample(2, 5);
    assert_eq!(cropped.channels(), 1);
    assert_eq!(cropped.length(), 3);
    assert_eq!(cropped.sample_rate(), w.sample_rate());
    let got = decode(&cropped.waveform(0).unwrap());
    assert_eq!(got, vec![1.0, -0.5, 0.25]);

    // The crop keeps a non-default rate once established.
    let codes: Vec<u32> = vec![0u32; 100];
    let slow = Sample::Multi(MultiChannel::from_interleaved(1, 22050, &codes).unwrap());
    assert_eq!(slow.sample(10, 20).sample_rate(), 22050);

    let long_vals: Vec<f32> = (0..RATE).map(|i| (i % 7) as f32 * 0.25).collect();
    let wave = wave_of(&long_vals);
    let quarter = wave.sample_sec(0.25f32.to_bits(), 0.5f32.to_bits()).unwrap();
    assert_eq!(quarter.length(), 11025);
    let bad = wave.sample_sec(0.5f32.to_bits(), 0.25f32.to_bits());
    assert_eq!(bad.unwrap_err(), Error::ShapeMismatch);
}

#[test]
fn seconds_convert_by_rounding() {
    // At rate 10, 1.26 seconds is 12.6 samples, which rounds to index 13
    // (truncation would give 12).
    let codes: Vec<u32> = vec![0u32; 20];
    let slow = Sample::Multi(MultiChannel::from_interleaved(1, 10, &codes).unwrap());
    let cut = slow.sample_sec(0.0f32.to_bits(), 1.26f32.to_bits()).unwrap();
    assert_eq!(cut.length(), 13);

    let mut comp = Composition::new();
    let id = comp.add_track(&slow, 0).unwrap();
    comp.add_track_id_sec(id, 1.26f32.to_bits()).unwrap();
    assert_eq!(comp.length(), 13 + 20);
}

#[test]
fn scale_multiplies_every_sample() {
    let w = wave_of(&[1.0, -2.0, 0.5]);
    let scaled = w.scale(0.5f32.to_bits());
    let got = decode(&scaled.waveform(0).unwrap());
    assert_eq!(got, vec![0.5, -1.0, 0.25]);
    assert_eq!(scaled.sample_rate(), w.sample_rate());
    assert_eq!(scaled.length(), w.length());
}

#[test]
fn add_channel_adopts_then_enforces_shape() {
    let mut m = MultiChannel::new();
    assert_eq!(m.channels(), 0);
    m.add_channel(&wave_of(&[0.5, 0.25])).unwrap();
    assert_eq!(m.sample_rate(), RATE);
    assert_eq!(m.length(), 2);
    assert_eq!(m.add_channel(&wave_of(&[0.5])).unwrap_err(), Error::ShapeMismatch);
    m.add_channel(&wave_of(&[1.0, 2.0])).unwrap();
    assert_eq!(m.channels(), 2);
    assert!(m.waveform(2).is_none());
}
