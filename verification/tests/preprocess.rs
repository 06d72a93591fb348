use sonicsearch::preprocess::{
    check_duration, check_extension, frame_bounds, mono_len, plan_preprocessing, resample_chunks,
    ChunkKind, PreprocessError, PreprocessPlan, ResampleChunk, SampleConversion, SampleFormat,
    WavSpec, DRIFT_TOLERANCE_PER_SECOND, INT_SAMPLE_SCALE, RESAMPLE_CHANNELS,
    RESAMPLE_CHUNK_SIZE_IN, RESAMPLE_SUBCHUNKS,
};

fn spec(channels: u16, sample_rate: u32, sample_format: SampleFormat) -> WavSpec {
    WavSpec { channels, sample_rate, bits_per_sample: 32, sample_format }
}

#[test]
fn preprocess_constants() {
    assert_eq!(RESAMPLE_CHUNK_SIZE_IN, 1024);
    assert_eq!(RESAMPLE_SUBCHUNKS, 2);
    assert_eq!(RESAMPLE_CHANNELS, 1);
    assert_eq!(INT_SAMPLE_SCALE, i32::MAX);
    assert_eq!(DRIFT_TOLERANCE_PER_SECOND, 10);
}

#[test]
fn wav_files_are_admitted() {
    assert!(check_extension("/sounds/rain.wav").is_ok());
    assert!(check_extension("/sounds/RAIN.WAV").is_ok());
}

#[test]
fn other_formats_are_unsupported() {
    match check_extension("/sounds/rain.MP3") {
        Err(PreprocessError::UnsupportedFormat(ext)) => assert_eq!(ext, "mp3"),
        _ => panic!("mp3 is not supported"),
    }
    match check_extension("/sounds/rain") {
        Err(PreprocessError::UnsupportedFormat(ext)) => assert_eq!(ext, "/sounds/rain"),
        _ => panic!("no extension is not supported"),
    }
}

#[test]
fn mono_float_at_the_target_rate_needs_no_step() {
    assert_eq!(
        plan_preprocessing(&spec(1, 48000, SampleFormat::Float)),
        PreprocessPlan { conversion: SampleConversion::PassThrough, downmix: false, resample: false }
    );
}

#[test]
fn stereo_integers_at_cd_rate_need_every_step() {
    assert_eq!(
        plan_preprocessing(&spec(2, 44100, SampleFormat::Int)),
        PreprocessPlan { conversion: SampleConversion::ScaleInt, downmix: true, resample: true }
    );
}

#[test]
fn each_step_is_decided_on_its_own() {
    let plan = plan_preprocessing(&spec(6, 48000, SampleFormat::Float));
    assert_eq!((plan.downmix, plan.resample), (true, false));
    let plan = plan_preprocessing(&spec(1, 47999, SampleFormat::Float));
    assert_eq!((plan.downmix, plan.resample), (false, true));
    let plan = plan_preprocessing(&spec(1, 48000, SampleFormat::Int));
    assert_eq!(plan.conversion, SampleConversion::ScaleInt);
}

#[test]
fn frames_of_an_interleaved_signal() {
    assert_eq!(mono_len(0, 2), 0);
    assert_eq!(mono_len(10, 2), 5);
    assert_eq!(mono_len(11, 2), 6);
    assert_eq!(mono_len(7, 1), 7);
    assert_eq!(mono_len(5, 6), 1);
    assert_eq!(mono_len(usize::MAX, 1), usize::MAX);
}

#[test]
fn samples_of_a_frame() {
    assert_eq!(frame_bounds(0, 10, 2), (0, 2));
    assert_eq!(frame_bounds(4, 10, 2), (8, 10));
    assert_eq!(frame_bounds(5, 11, 2), (10, 11));
    assert_eq!(frame_bounds(0, 5, 6), (0, 5));
    assert_eq!(frame_bounds(3, 7, 1), (3, 4));
}

#[test]
fn frames_agree_with_chunking_of_the_samples() {
    let samples: Vec<u32> = (0..23).collect();
    for channels in [1u16, 2, 3, 5, 23, 24] {
        let pieces: Vec<&[u32]> = samples.chunks(channels as usize).collect();
        assert_eq!(mono_len(samples.len(), channels), pieces.len());
        for (k, piece) in pieces.iter().enumerate() {
            let (start, end) = frame_bounds(k, samples.len(), channels);
            assert_eq!(&samples[start..end], *piece);
        }
    }
}

#[test]
fn a_signal_is_cut_into_full_chunks_and_a_rest() {
    assert_eq!(
        resample_chunks(2500),
        vec![
            ResampleChunk { start: 0, end: 1024, kind: ChunkKind::Full },
            ResampleChunk { start: 1024, end: 2048, kind: ChunkKind::Full },
            ResampleChunk { start: 2048, end: 2500, kind: ChunkKind::Partial },
        ]
    );
}

#[test]
fn a_signal_of_whole_chunks_has_no_rest() {
    assert_eq!(
        resample_chunks(2048),
        vec![
            ResampleChunk { start: 0, end: 1024, kind: ChunkKind::Full },
            ResampleChunk { start: 1024, end: 2048, kind: ChunkKind::Full },
        ]
    );
}

#[test]
fn short_and_empty_signals() {
    assert_eq!(resample_chunks(0), vec![]);
    assert_eq!(
        resample_chunks(1),
        vec![ResampleChunk { start: 0, end: 1, kind: ChunkKind::Partial }]
    );
    assert_eq!(
        resample_chunks(1023),
        vec![ResampleChunk { start: 0, end: 1023, kind: ChunkKind::Partial }]
    );
}

#[test]
fn chunks_agree_with_chunking_of_the_samples() {
    let samples: Vec<u32> = (0..5000).collect();
    let pieces: Vec<&[u32]> = samples.chunks(1024).collect();
    let chunks = resample_chunks(samples.len());
    assert_eq!(chunks.len(), pieces.len());
    for (chunk, piece) in chunks.iter().zip(pieces.iter()) {
        assert_eq!(&samples[chunk.start..chunk.end], *piece);
        assert_eq!(chunk.kind == ChunkKind::Full, piece.len() == 1024);
    }
}

#[test]
fn ten_seconds_stay_ten_seconds() {
    assert!(check_duration(441_000, 44100, 480_000).is_ok());
    assert!(check_duration(480_000, 48000, 480_000).is_ok());
    assert!(check_duration(0, 44100, 0).is_ok());
}

#[test]
fn a_tenth_of_a_second_is_tolerated_and_no_more() {
    // A tenth of a second is 4800 samples at the target rate.
    assert!(check_duration(441_000, 44100, 484_800).is_ok());
    assert!(check_duration(441_000, 44100, 475_200).is_ok());
    assert!(check_duration(441_000, 44100, 484_801).is_err());
    assert!(check_duration(441_000, 44100, 475_199).is_err());
}

#[test]
fn drift_is_reported_with_the_lengths() {
    match check_duration(44100, 44100, 96000) {
        Err(PreprocessError::ResamplingDrift { samples_before, source_rate, samples_after }) => {
            assert_eq!((samples_before, source_rate, samples_after), (44100, 44100, 96000));
        }
        _ => panic!("one second became two"),
    }
}

#[test]
fn duration_check_agrees_with_seconds() {
    for (before, rate, after) in [
        (22050usize, 22050u32, 48000usize),
        (22050, 22050, 52800),
        (22050, 22050, 52801),
        (8000, 8000, 43200),
        (8000, 8000, 43199),
        (96000, 96000, 48001),
        (1, 3, 16000),
    ] {
        let seconds_before = before as f64 / rate as f64;
        let seconds_after = after as f64 / 48000.0;
        let within = 10 * (after as i128 * rate as i128 - before as i128 * 48000).abs()
            <= 48000 * rate as i128;
        assert_eq!(check_duration(before, rate, after).is_ok(), within);
        if (seconds_after - seconds_before).abs() < 0.0999 {
            assert!(check_duration(before, rate, after).is_ok());
        }
        if (seconds_after - seconds_before).abs() > 0.1001 {
            assert!(check_duration(before, rate, after).is_err());
        }
    }
}

#[test]
fn huge_signals_do_not_overflow_the_check() {
    assert!(check_duration(usize::MAX, u32::MAX, usize::MAX).is_err());
    assert!(check_duration(usize::MAX, 48000, usize::MAX).is_ok());
}
