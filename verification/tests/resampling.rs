use resampler::engine::MonoFrame;
use resampler::engine::OutputAudio;
use resampler::engine::Resampler;
use resampler::engine::SourceAudio;
use resampler::rational::Rat;

fn frames(values: &[(i128, i128)]) -> Vec<MonoFrame> {
    values.iter().map(|&(n, d)| MonoFrame { value: Rat::new(n, d) }).collect()
}

fn source(rate: i128, values: &[(i128, i128)], playhead: Rat) -> SourceAudio {
    SourceAudio {
        sample_rate: Rat::from_int(rate),
        audio: frames(values),
        playhead_position_in_fractional_samples: playhead,
    }
}

fn block(rate: i128, len: usize) -> OutputAudio {
    OutputAudio {
        sample_rate: Rat::from_int(rate),
        buffer: frames(&vec![(0, 1); len]),
    }
}

#[test]
fn upsampling_scenario_with_midpoints() {
    // Source [0.0, 1.0, 0.0] at rate 2, output at rate 4 (ratio 0.5),
    // block of 4 from playhead 0: expect [0.0, 0.5, 1.0, 0.5] and a
    // final playhead of exactly 2.0.
    let mut src = source(2, &[(0, 1), (1, 1), (0, 1)], Rat::zero());
    let mut out = block(4, 4);
    let mut engine = Resampler::new(4);
    engine.resample(&mut src, &mut out);

    assert!(out.buffer[0].value.eq_rat(&Rat::zero()));
    assert!(out.buffer[1].value.eq_rat(&Rat::new(1, 2)));
    assert!(out.buffer[2].value.eq_rat(&Rat::from_int(1)));
    assert!(out.buffer[3].value.eq_rat(&Rat::new(1, 2)));
    assert!(src.playhead_position_in_fractional_samples.eq_rat(&Rat::from_int(2)));
}

#[test]
fn interpolation_midpoint_is_half() {
    // Source values [0.0, 1.0] at positions [0, 1]; requesting position
    // 0.5 yields exactly 0.5.
    let mut src = source(1, &[(0, 1), (1, 1)], Rat::zero());
    let mut out = block(2, 2);
    let mut engine = Resampler::new(2);
    engine.resample(&mut src, &mut out);

    assert!(out.buffer[0].value.eq_rat(&Rat::zero()));
    assert!(out.buffer[1].value.eq_rat(&Rat::new(1, 2)));
}

#[test]
fn identity_rates_pass_samples_through() {
    let values = [(3, 10), (-1, 2), (7, 8), (0, 1)];
    let mut src = source(44100, &values, Rat::zero());
    let mut out = block(44100, 4);
    let mut engine = Resampler::new(4);
    engine.resample(&mut src, &mut out);

    for (slot, &(n, d)) in out.buffer.iter().zip(values.iter()) {
        assert!(slot.value.eq_rat(&Rat::new(n, d)));
    }
    assert!(src.playhead_position_in_fractional_samples.eq_rat(&Rat::from_int(4)));
}

#[test]
fn blocks_continue_without_seams() {
    // Resampling in one block of 4 equals resampling in two blocks of 2,
    // sample for sample, at a non-integer ratio (3 / 2).
    let values = [(0, 1), (1, 1), (0, 1), (-1, 1), (0, 1), (1, 1), (0, 1)];

    let mut whole_src = source(3, &values, Rat::zero());
    let mut whole_out = block(2, 4);
    let mut whole_engine = Resampler::new(4);
    whole_engine.resample(&mut whole_src, &mut whole_out);

    let mut split_src = source(3, &values, Rat::zero());
    let mut split_engine = Resampler::new(2);
    let mut first = block(2, 2);
    split_engine.resample(&mut split_src, &mut first);
    let mut second = block(2, 2);
    split_engine.resample(&mut split_src, &mut second);

    assert!(whole_out.buffer[0].value.eq_rat(&first.buffer[0].value));
    assert!(whole_out.buffer[1].value.eq_rat(&first.buffer[1].value));
    assert!(whole_out.buffer[2].value.eq_rat(&second.buffer[0].value));
    assert!(whole_out.buffer[3].value.eq_rat(&second.buffer[1].value));
    assert!(whole_src.playhead_position_in_fractional_samples.eq_rat(
        &split_src.playhead_position_in_fractional_samples,
    ));
}

#[test]
fn positions_past_the_source_are_silent() {
    // The playhead starts past the last sample: every produced value is
    // exactly zero.
    let mut src = source(2, &[(1, 1), (1, 1)], Rat::from_int(5));
    let mut out = block(2, 3);
    let mut engine = Resampler::new(3);
    engine.resample(&mut src, &mut out);

    for slot in out.buffer.iter() {
        assert!(slot.value.eq_rat(&Rat::zero()));
    }
}

#[test]
fn tail_of_a_block_past_the_source_is_silent() {
    // A block that runs off the end of the source is padded with silence.
    let mut src = source(1, &[(1, 2)], Rat::zero());
    let mut out = block(1, 3);
    let mut engine = Resampler::new(3);
    engine.resample(&mut src, &mut out);

    assert!(out.buffer[0].value.eq_rat(&Rat::new(1, 2)));
    assert!(out.buffer[1].value.eq_rat(&Rat::zero()));
    assert!(out.buffer[2].value.eq_rat(&Rat::zero()));
}

#[test]
fn empty_source_yields_silence() {
    let mut src = source(2, &[], Rat::zero());
    let mut out = block(4, 2);
    let mut engine = Resampler::new(2);
    engine.resample(&mut src, &mut out);

    assert!(out.buffer[0].value.eq_rat(&Rat::zero()));
    assert!(out.buffer[1].value.eq_rat(&Rat::zero()));
}

#[test]
fn downsampling_consumes_source_twice_as_fast() {
    // Eight source samples at rate 4: a block of 4 at rate 2 (ratio 2)
    // consumes all eight; the same block at rate 8 (ratio 0.5) consumes
    // two. The playhead advances by the ratio per output sample.
    let values = [(1, 1), (2, 1), (3, 1), (4, 1), (5, 1), (6, 1), (7, 1), (8, 1)];

    let mut down_src = source(4, &values, Rat::zero());
    let mut down_out = block(2, 4);
    let mut down_engine = Resampler::new(4);
    down_engine.resample(&mut down_src, &mut down_out);
    assert!(down_src.playhead_position_in_fractional_samples.eq_rat(&Rat::from_int(8)));

    let mut up_src = source(4, &values, Rat::zero());
    let mut up_out = block(8, 4);
    let mut up_engine = Resampler::new(4);
    up_engine.resample(&mut up_src, &mut up_out);
    assert!(up_src.playhead_position_in_fractional_samples.eq_rat(&Rat::from_int(2)));
}

#[test]
fn exact_integer_positions_pass_through_unchanged() {
    // Ratio 2 lands on integer positions only: outputs are the source
    // samples themselves, with no interpolation applied.
    let mut src = source(6, &[(5, 3), (-2, 7), (7, 9), (1, 4)], Rat::zero());
    let mut out = block(3, 2);
    let mut engine = Resampler::new(2);
    engine.resample(&mut src, &mut out);

    assert!(out.buffer[0].value.eq_rat(&Rat::new(5, 3)));
    assert!(out.buffer[1].value.eq_rat(&Rat::new(7, 9)));
    assert!(src.playhead_position_in_fractional_samples.eq_rat(&Rat::from_int(4)));
}

#[test]
fn fractional_playhead_resumes_mid_sample() {
    // Starting half way between the first two samples interpolates from
    // there: source [0, 1] at position 0.5 gives 0.5, then 1 at 1.0,
    // then silence past the end at 2.0... with ratio 1/2 from rate 2 to 4.
    let mut src = source(2, &[(0, 1), (1, 1)], Rat::new(1, 2));
    let mut out = block(4, 4);
    let mut engine = Resampler::new(4);
    engine.resample(&mut src, &mut out);

    assert!(out.buffer[0].value.eq_rat(&Rat::new(1, 2)));
    assert!(out.buffer[1].value.eq_rat(&Rat::from_int(1)));
    assert!(out.buffer[2].value.eq_rat(&Rat::new(1, 2)));
    assert!(out.buffer[3].value.eq_rat(&Rat::zero()));
    assert!(src.playhead_position_in_fractional_samples.eq_rat(&Rat::new(5, 2)));
}
