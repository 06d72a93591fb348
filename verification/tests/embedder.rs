use sonicsearch::embedder::{
    pair_replies, split_outputs, stack_batch, AudioEmbedder, EmbedError, MelSpecAndSender,
    WorkerStep, AUDIO_MODEL_RESOURCE,
};
use sonicsearch::mel::{reshape_mel_spec, MelSpectrogram, MelTensor};

/// Model input whose value at `(t, m)` is `tag + 100 * t + m`, with two
/// bands and `frames` frames (at least the target length).
fn tensor(tag: u64, frames: usize) -> MelTensor {
    let mut values = vec![0u64; 2 * frames];
    for m in 0..2 {
        for t in 0..frames {
            values[m * frames + t] = tag + 100 * t as u64 + m as u64;
        }
    }
    let mut mel = MelSpectrogram::new(2);
    mel.append(2, frames, &values).expect("shape fits");
    reshape_mel_spec(&mel).ok().expect("not empty")
}

fn tickets(batch: &[MelSpecAndSender]) -> Vec<u64> {
    batch.iter().map(|entry| entry.1).collect()
}

#[test]
fn a_new_embedder_waits() {
    let mut embedder = AudioEmbedder::new();
    assert_eq!(embedder.pending(), 0);
    assert!(embedder.has_ticket_left());
    assert!(matches!(embedder.begin_processing_queue(), WorkerStep::Wait));
}

#[test]
fn tickets_count_up_from_zero() {
    let mut embedder = AudioEmbedder::new();
    assert_eq!(embedder.queue_for_batch_processing(tensor(0, 1001)), 0);
    assert_eq!(embedder.queue_for_batch_processing(tensor(0, 1001)), 1);
    assert_eq!(embedder.queue_for_batch_processing(tensor(0, 1001)), 2);
    assert_eq!(embedder.pending(), 3);
}

#[test]
fn the_worker_drains_everything_in_order_of_submission() {
    let mut embedder = AudioEmbedder::new();
    let a = embedder.queue_for_batch_processing(tensor(1_000_000, 1001));
    let b = embedder.queue_for_batch_processing(tensor(2_000_000, 1001));
    let c = embedder.queue_for_batch_processing(tensor(3_000_000, 1001));
    match embedder.begin_processing_queue() {
        WorkerStep::Run(batch) => {
            assert_eq!(tickets(&batch), vec![a, b, c]);
            assert_eq!(batch[0].0.value(0, 0), 1_000_000);
            assert_eq!(batch[1].0.value(0, 0), 2_000_000);
            assert_eq!(batch[2].0.value(0, 0), 3_000_000);
        }
        _ => panic!("a batch was queued"),
    }
    assert_eq!(embedder.pending(), 0);
    assert!(matches!(embedder.begin_processing_queue(), WorkerStep::Wait));
}

#[test]
fn submissions_after_a_drain_form_the_next_batch() {
    let mut embedder = AudioEmbedder::new();
    embedder.queue_for_batch_processing(tensor(0, 1001));
    assert!(matches!(embedder.begin_processing_queue(), WorkerStep::Run(_)));
    let next = embedder.queue_for_batch_processing(tensor(0, 1001));
    assert_eq!(next, 1);
    match embedder.begin_processing_queue() {
        WorkerStep::Run(batch) => assert_eq!(tickets(&batch), vec![1]),
        _ => panic!("a batch was queued"),
    }
}

#[test]
fn stop_ends_the_worker_once_nothing_is_queued() {
    let mut embedder = AudioEmbedder::new();
    embedder.queue_for_batch_processing(tensor(0, 1001));
    embedder.stop_processing_queue();
    assert!(matches!(embedder.begin_processing_queue(), WorkerStep::Run(_)));
    assert!(matches!(embedder.begin_processing_queue(), WorkerStep::Exit));
}

#[test]
fn a_stop_is_used_up_by_the_exit() {
    let mut embedder = AudioEmbedder::new();
    embedder.stop_processing_queue();
    assert!(matches!(embedder.begin_processing_queue(), WorkerStep::Exit));
    assert!(matches!(embedder.begin_processing_queue(), WorkerStep::Wait));
}

#[test]
fn stacking_lays_the_inputs_out_one_after_the_other() {
    let batch = vec![
        MelSpecAndSender(tensor(1_000_000, 1001), 0),
        MelSpecAndSender(tensor(2_000_000, 1001), 1),
    ];
    let stacked = stack_batch(&batch).ok().expect("same shapes");
    assert_eq!((stacked.batch, stacked.frames, stacked.n_mels), (2, 1001, 2));
    assert_eq!(stacked.shape(), [2, 1, 1001, 2]);
    assert_eq!(stacked.values.len(), 2 * 1001 * 2);
    for (b, tag) in [(0usize, 1_000_000u64), (1, 2_000_000)] {
        for t in [0usize, 1, 1000] {
            for m in 0..2usize {
                let at = (b * 1001 + t) * 2 + m;
                assert_eq!(stacked.values[at], tag + 100 * t as u64 + m as u64);
            }
        }
    }
}

#[test]
fn stacking_rejects_inputs_of_different_shapes() {
    let batch = vec![
        MelSpecAndSender(tensor(0, 1001), 0),
        MelSpecAndSender(tensor(0, 1002), 1),
    ];
    assert!(matches!(stack_batch(&batch), Err(EmbedError::BatchShape)));
}

#[test]
fn stacking_rejects_an_empty_batch() {
    assert!(matches!(stack_batch(&Vec::new()), Err(EmbedError::BatchShape)));
}

#[test]
fn the_output_is_cut_into_one_row_per_entry() {
    let values: Vec<u32> = (0..6).collect();
    let rows = split_outputs(&values, 2).ok().expect("six values in two rows");
    assert_eq!(rows, vec![vec![0, 1, 2], vec![3, 4, 5]]);
    let rows = split_outputs(&values, 6).ok().expect("six values in six rows");
    assert_eq!(rows.len(), 6);
    assert_eq!(rows[5], vec![5]);
}

#[test]
fn an_output_of_512_values_per_row() {
    let values: Vec<u32> = (0..3 * 512).collect();
    let rows = split_outputs(&values, 3).ok().expect("three rows");
    assert_eq!(rows.len(), 3);
    assert_eq!(rows[1].len(), 512);
    assert_eq!(rows[1][0], 512);
    assert_eq!(rows[2][511], 1535);
}

#[test]
fn an_output_that_cannot_be_cut_evenly_is_rejected() {
    let values: Vec<u32> = (0..7).collect();
    assert!(matches!(split_outputs(&values, 2), Err(EmbedError::OutputShape)));
    assert!(matches!(split_outputs(&values, 0), Err(EmbedError::OutputShape)));
}

#[test]
fn an_empty_output_has_no_rows() {
    let rows = split_outputs(&[], 0).ok().expect("nothing to cut");
    assert!(rows.is_empty());
    let rows = split_outputs(&[], 3).ok().expect("three empty rows");
    assert_eq!(rows, vec![Vec::<u32>::new(), vec![], vec![]]);
}

#[test]
fn replies_correspond_to_submissions_by_position() {
    let batch = vec![
        MelSpecAndSender(tensor(0, 1001), 17),
        MelSpecAndSender(tensor(0, 1001), 18),
        MelSpecAndSender(tensor(0, 1001), 23),
    ];
    let outputs = vec![vec![1u32, 1], vec![2, 2], vec![3, 3]];
    let replies = pair_replies(&batch, Ok(outputs));
    assert_eq!(replies.len(), 3);
    let told: Vec<(u64, Vec<u32>)> = replies
        .into_iter()
        .map(|reply| (reply.ticket, reply.outcome.ok().expect("the run succeeded")))
        .collect();
    assert_eq!(told, vec![(17, vec![1, 1]), (18, vec![2, 2]), (23, vec![3, 3])]);
}

#[test]
fn a_failed_run_is_told_to_every_submitter_of_the_batch() {
    let batch = vec![
        MelSpecAndSender(tensor(0, 1001), 4),
        MelSpecAndSender(tensor(0, 1001), 5),
    ];
    let replies = pair_replies(&batch, Err(EmbedError::InferenceError("out of memory".to_string())));
    assert_eq!(replies.len(), 2);
    assert_eq!(replies[0].ticket, 4);
    assert_eq!(replies[1].ticket, 5);
    for reply in &replies {
        match &reply.outcome {
            Err(EmbedError::InferenceError(report)) => assert_eq!(report, "out of memory"),
            _ => panic!("the run failed"),
        }
    }
}

#[test]
fn a_batch_runs_from_queue_to_replies() {
    let mut embedder = AudioEmbedder::new();
    let first = embedder.queue_for_batch_processing(tensor(10, 1001));
    let second = embedder.queue_for_batch_processing(tensor(20, 1001));
    let batch = match embedder.begin_processing_queue() {
        WorkerStep::Run(batch) => batch,
        _ => panic!("a batch was queued"),
    };
    let stacked = stack_batch(&batch).ok().expect("same shapes");
    assert_eq!(stacked.batch, 2);
    // Stand-in for the model: row b holds the first value of input b.
    let model_output: Vec<u32> =
        (0..2).flat_map(|b| vec![stacked.values[b * 1001 * 2] as u32; 512]).collect();
    let rows = split_outputs(&model_output, stacked.batch).ok().expect("two rows");
    let replies = pair_replies(&batch, Ok(rows));
    assert_eq!(replies[0].ticket, first);
    assert_eq!(replies[1].ticket, second);
    assert_eq!(replies[0].outcome.as_ref().ok().expect("ok")[0], 10);
    assert_eq!(replies[1].outcome.as_ref().ok().expect("ok")[511], 20);
}

#[test]
fn duplicate_of_an_error_is_the_same_error() {
    let error = EmbedError::InferenceError("bad input".to_string());
    assert!(matches!(error.duplicate(), EmbedError::InferenceError(report) if report == "bad input"));
    assert!(matches!(EmbedError::EmbedderClosed.duplicate(), EmbedError::EmbedderClosed));
    assert!(matches!(EmbedError::BatchShape.duplicate(), EmbedError::BatchShape));
    assert!(matches!(EmbedError::OutputShape.duplicate(), EmbedError::OutputShape));
}

#[test]
fn resource_of_the_audio_tower() {
    assert_eq!(AUDIO_MODEL_RESOURCE, "onnx_models/clap-htsat-unfused_audio_with_projection.onnx");
}
