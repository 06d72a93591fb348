use mel_spec::config::MelConfig;
use mel_spec_pipeline::{Pipeline, PipelineConfig};
use sonicsearch::mel::{
    reshape_mel_spec, MelError, MelSpectrogram, MelTensor, MEL_FFT_SIZE, MEL_HOP_SIZE, N_MELS,
    TARGET_LENGTH,
};

/// The spectrogram of a segment as the mel pipeline computes it, put
/// together chunk by chunk and shaped for the model.
fn compute_mel_spec_from_pcm(segment_pcm: &[f32]) -> Result<MelTensor, MelError> {
    let mel_config = MelConfig::new(MEL_FFT_SIZE, MEL_HOP_SIZE, N_MELS, 48000.0);
    let pipeline_config = PipelineConfig::new(mel_config, None);
    let mut pipeline = Pipeline::new(pipeline_config);

    let pipeline_join_handles = pipeline.start();
    let rx_clone = pipeline.rx();
    pipeline.send_pcm(segment_pcm).expect("the pipeline takes samples");
    pipeline.close_ingress();

    let mut mel_spec = MelSpectrogram::new(N_MELS);
    while let Ok((_mel_idx, mel_spec_chunk)) = rx_clone.recv() {
        let values: Vec<u64> = mel_spec_chunk.iter().map(|v| v.to_bits()).collect();
        mel_spec.append(mel_spec_chunk.nrows(), mel_spec_chunk.ncols(), &values)?;
    }

    for handle in pipeline_join_handles {
        handle.join().expect("Pipeline should join");
    }

    reshape_mel_spec(&mel_spec)
}

#[test]
fn test_compute_mel_spec_from_pcm_with_zeros() {
    // 10 seconds of 48kHz silence
    let test_segment_pcm = vec![0.0; 48000 * 10];
    let result = compute_mel_spec_from_pcm(&test_segment_pcm);
    assert!(result.is_ok());
}

#[test]
fn test_compute_mel_spec_from_pcm_with_no_length() {
    // 0 seconds of 48kHz silence
    let test_segment_pcm = vec![0.0; 0];
    let result = compute_mel_spec_from_pcm(&test_segment_pcm);
    assert!(result.is_err());
}

#[test]
fn ten_seconds_of_sound_are_shaped_to_the_target_length() {
    let pcm: Vec<f32> = (0..480_000).map(|i| ((i % 480) as f32 / 480.0) - 0.5).collect();
    let tensor = compute_mel_spec_from_pcm(&pcm).ok().expect("ten seconds have frames");
    assert_eq!(tensor.shape(), (1, TARGET_LENGTH, N_MELS));
}

#[test]
fn a_short_sound_is_shaped_to_the_target_length_too() {
    let pcm: Vec<f32> = (0..48_000).map(|i| ((i % 100) as f32 / 100.0) - 0.5).collect();
    let tensor = compute_mel_spec_from_pcm(&pcm).ok().expect("one second has frames");
    assert_eq!(tensor.shape(), (1, 1001, 64));
}
