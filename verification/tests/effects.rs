use mixdown::effect::{apply_waveform_effect, Effect, LinearFadeEcho, WaveformEffect};
use mixdown::error::Error;
use mixdown::sample::{MultiChannel, Sample, SineWave, WaveForm};

fn sine(freq: f32, length: usize, amp: f32) -> Sample {
    Sample::Sine(SineWave::new(freq.to_bits(), length, amp.to_bits()))
}

fn decode(w: &[u32]) -> Vec<f32> {
    w.iter().map(|c| f32::from_bits(*c)).collect()
}

#[test]
fn echo() {
    let wave = sine(440.0, (44100.0 * 0.01) as usize, 0.6);
    let echo = LinearFadeEcho {
        delay: (44100.0 * 0.02) as usize,
        fade_slope: 0.2f32.to_bits(),
    };
    let wave = echo.apply(&wave).unwrap();
    assert!(wave.export().is_ok());
}

#[test]
fn echo_yields_four_fading_copies() {
    let len = (44100.0 * 0.01) as usize;
    let delay = (44100.0 * 0.02) as usize;
    let echo = LinearFadeEcho::new(delay, 0.2f32.to_bits());
    let comp = echo.echo(&sine(440.0, len, 0.6)).unwrap();
    // Repeated binary32 subtraction of 0.2 from 1.0 leaves a tiny positive
    // residue after the fade 0.2, so a fifth, nearly silent copy is
    // scheduled: the fades are 0.8, 0.6, 0.4, 0.2, and about 2.4e-8.
    assert_eq!(comp.tracks.len(), 5);
    assert_eq!(comp.length(), len + 5 * delay);
    assert_eq!(comp.channels(), 1);

    // With a slope that is a power of two the chain is exact: 0.75, 0.5,
    // 0.25, then zero.
    let exact = LinearFadeEcho::new(delay, 0.25f32.to_bits());
    let comp = exact.echo(&sine(440.0, len, 0.6)).unwrap();
    assert_eq!(comp.tracks.len(), 3);
    assert_eq!(comp.length(), len + 3 * delay);
}

#[test]
fn echo_with_full_slope_is_empty() {
    let echo = LinearFadeEcho::new(100, 1.0f32.to_bits());
    let comp = echo.echo(&sine(440.0, 50, 0.5)).unwrap();
    assert_eq!(comp.length(), 0);
    assert_eq!(comp.tracks.len(), 0);
}

#[test]
fn echo_scales_each_copy() {
    let codes: Vec<u32> = vec![1.0f32.to_bits()];
    let one = Sample::Wave(WaveForm::from(&codes));
    let echo = LinearFadeEcho::new(2, 0.25f32.to_bits());
    let comp = echo.echo(&one).unwrap();
    // Fades 0.75, 0.5, 0.25 at offsets 2, 4, 6.
    assert_eq!(comp.length(), 7);
    let out = decode(&Sample::Comp(comp).waveform(0).unwrap());
    assert_eq!(out, vec![0.0, 0.0, 0.75, 0.0, 0.5, 0.0, 0.25]);
}

struct Doubler;

impl WaveformEffect for Doubler {
    fn process(&self, waveform: &Vec<u32>) -> Result<Sample, Error> {
        let doubled: Vec<u32> = waveform
            .iter()
            .map(|c| (2.0 * f32::from_bits(*c)).to_bits())
            .collect();
        Ok(Sample::Wave(WaveForm::from(&doubled)))
    }
}

#[test]
fn lifting_processes_every_channel() {
    let left = sine(440.0, 256, 0.25);
    let silence = sine(440.0, 256, 0.0);
    let dual = Sample::Multi(MultiChannel::new_dual(&left, &silence).unwrap());
    let out = apply_waveform_effect(&Doubler, &dual).unwrap();
    assert_eq!(out.channels(), 2);
    assert_eq!(out.length(), 256);
    let input = decode(&dual.waveform(0).unwrap());
    let output = decode(&out.waveform(0).unwrap());
    for t in 0..256 {
        assert_eq!(output[t], 2.0 * input[t]);
    }
    let right = decode(&out.waveform(1).unwrap());
    assert!(right.iter().all(|v| *v == 0.0));
}

struct Failing;

impl WaveformEffect for Failing {
    fn process(&self, _waveform: &Vec<u32>) -> Result<Sample, Error> {
        Err(Error::InvalidChannel)
    }
}

#[test]
fn lifting_propagates_failure() {
    let mono = sine(440.0, 16, 0.5);
    let r = apply_waveform_effect(&Failing, &mono);
    assert_eq!(r.unwrap_err(), Error::InvalidChannel);
}
