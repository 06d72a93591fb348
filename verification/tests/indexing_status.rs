use sonicsearch::indexing_status::{
    IndexingProgress, IndexingStatus, IndexingStatusChanged, InvalidStatusTransition,
    PreIndexingProgress, Progress, Status,
};

fn preindexing(total: u32, now: i64, preindexed: u32) -> Status {
    Status::InProgress(Progress {
        preindexing: PreIndexingProgress { started_preindexing: now, preindexed },
        indexing: None,
        total,
    })
}

#[test]
fn a_new_holder_is_idle() {
    assert_eq!(IndexingStatus::new().get_status(), Status::Idle);
}

#[test]
fn a_run_goes_through_all_phases() {
    let mut holder = IndexingStatus::new();
    assert_eq!(holder.set_started(), Ok(IndexingStatusChanged(Status::Started)));
    assert_eq!(holder.get_status(), Status::Started);
    let event = holder.set_preindexing_started_at(1000, 1_700_000_000_000);
    assert_eq!(event, Ok(IndexingStatusChanged(preindexing(1000, 1_700_000_000_000, 0))));
    let event = holder.set_indexing_started_at(200, 1_700_000_060_000).expect("in progress");
    let expected = Status::InProgress(Progress {
        preindexing: PreIndexingProgress { started_preindexing: 1_700_000_000_000, preindexed: 0 },
        indexing: Some(IndexingProgress {
            started_indexing: 1_700_000_060_000,
            newly_indexed: 0,
            total_to_index: 200,
        }),
        total: 1000,
    });
    assert_eq!(event, IndexingStatusChanged(expected));
    assert_eq!(holder.get_status(), expected);
    assert_eq!(holder.set_idle(), IndexingStatusChanged(Status::Idle));
    assert_eq!(holder.get_status(), Status::Idle);
}

#[test]
fn the_clock_is_read_when_no_time_is_given() {
    let mut holder = IndexingStatus::new();
    let event = holder.set_preindexing_started(500).expect("allowed from idle");
    match event.0 {
        Status::InProgress(progress) => {
            assert_eq!(progress.total, 500);
            assert_eq!(progress.preindexing.preindexed, 0);
            assert!(progress.indexing.is_none());
            // Some time after the year 2020.
            assert!(progress.preindexing.started_preindexing > 1_577_836_800_000);
        }
        _ => panic!("pre-indexing has started"),
    }
    let event = holder.set_indexing_started(100).expect("in progress");
    match event.0 {
        Status::InProgress(progress) => {
            let indexing = progress.indexing.expect("indexing has started");
            assert_eq!((indexing.newly_indexed, indexing.total_to_index), (0, 100));
            assert!(indexing.started_indexing >= progress.preindexing.started_preindexing);
        }
        _ => panic!("indexing has started"),
    }
}

#[test]
fn counters_cannot_move_outside_a_run() {
    let mut holder = IndexingStatus::new();
    assert_eq!(holder.increment_preindexed(), Err(InvalidStatusTransition::NotInProgress));
    assert_eq!(holder.increment_indexed(), Err(InvalidStatusTransition::NotInProgress));
    holder.set_started().expect("allowed from idle");
    assert_eq!(holder.increment_preindexed(), Err(InvalidStatusTransition::NotInProgress));
    assert_eq!(holder.increment_indexed(), Err(InvalidStatusTransition::NotInProgress));
    assert_eq!(holder.get_status(), Status::Started);
}

#[test]
fn indexing_cannot_start_outside_a_run() {
    let mut holder = IndexingStatus::new();
    assert_eq!(
        holder.set_indexing_started_at(10, 0),
        Err(InvalidStatusTransition::NotInProgress)
    );
    assert_eq!(holder.set_indexing_started(10), Err(InvalidStatusTransition::NotInProgress));
    assert_eq!(holder.get_status(), Status::Idle);
}

#[test]
fn the_indexing_counter_cannot_move_before_indexing() {
    let mut holder = IndexingStatus::new();
    holder.set_preindexing_started_at(1000, 5).expect("allowed from idle");
    assert_eq!(holder.increment_indexed(), Err(InvalidStatusTransition::NotIndexing));
    assert_eq!(holder.get_status(), preindexing(1000, 5, 0));
}

#[test]
fn the_preindexing_counter_is_shown_on_every_hundredth() {
    let mut holder = IndexingStatus::new();
    holder.set_preindexing_started_at(1000, 5).expect("allowed from idle");
    let mut shown = Vec::new();
    for count in 1..=30u32 {
        assert!(holder.preindexed_can_move());
        match holder.increment_preindexed().expect("in progress") {
            Some(event) => {
                assert_eq!(event, IndexingStatusChanged(preindexing(1000, 5, count)));
                shown.push(count);
            }
            None => {}
        }
        assert_eq!(holder.get_status(), preindexing(1000, 5, count));
    }
    assert_eq!(shown, vec![10, 20, 30]);
}

#[test]
fn with_a_hundred_files_every_step_is_shown() {
    let mut holder = IndexingStatus::new();
    holder.set_preindexing_started_at(100, 0).expect("allowed from idle");
    for _ in 0..5 {
        assert!(holder.increment_preindexed().expect("in progress").is_some());
    }
}

#[test]
fn the_indexing_counter_is_shown_on_every_hundredth() {
    let mut holder = IndexingStatus::new();
    holder.set_preindexing_started_at(5000, 0).expect("allowed from idle");
    holder.set_indexing_started_at(250, 9).expect("in progress");
    let mut shown = Vec::new();
    for count in 1..=7u32 {
        assert!(holder.indexed_can_move());
        if let Some(event) = holder.increment_indexed().expect("indexing") {
            match event.0 {
                Status::InProgress(progress) => {
                    assert_eq!(progress.indexing.expect("indexing").newly_indexed, count)
                }
                _ => panic!("in progress"),
            }
            shown.push(count);
        }
    }
    assert_eq!(shown, vec![2, 4, 6]);
}

#[test]
fn with_fewer_than_a_hundred_files_every_file_is_shown() {
    let mut holder = IndexingStatus::new();
    holder.set_preindexing_started_at(99, 3).expect("allowed from idle");
    for count in 1..=5u32 {
        assert!(holder.preindexed_can_move());
        assert_eq!(
            holder.increment_preindexed(),
            Ok(Some(IndexingStatusChanged(preindexing(99, 3, count))))
        );
    }
    holder.set_indexing_started_at(7, 4).expect("in progress");
    for count in 1..=7u32 {
        assert!(holder.indexed_can_move());
        let event = holder.increment_indexed().expect("indexing").expect("every file is shown");
        match event.0 {
            Status::InProgress(progress) => {
                assert_eq!(progress.preindexing.preindexed, 5);
                assert_eq!(progress.total, 99);
                let indexing = progress.indexing.expect("indexing");
                assert_eq!((indexing.newly_indexed, indexing.total_to_index), (count, 7));
                assert_eq!(indexing.started_indexing, 4);
            }
            _ => panic!("in progress"),
        }
    }
}

#[test]
fn a_run_over_one_file_counts_that_file() {
    let mut holder = IndexingStatus::new();
    holder.set_preindexing_started_at(1, 0).expect("allowed from idle");
    assert_eq!(
        holder.increment_preindexed(),
        Ok(Some(IndexingStatusChanged(preindexing(1, 0, 1))))
    );
    holder.set_indexing_started_at(1, 0).expect("in progress");
    assert!(holder.increment_indexed().expect("indexing").is_some());
}

#[test]
fn a_counter_over_no_file_can_still_be_moved() {
    let mut holder = IndexingStatus::new();
    holder.set_preindexing_started_at(0, 0).expect("allowed from idle");
    assert_eq!(
        holder.increment_preindexed(),
        Ok(Some(IndexingStatusChanged(preindexing(0, 0, 1))))
    );
    holder.set_indexing_started_at(0, 0).expect("in progress");
    assert!(holder.increment_indexed().expect("indexing").is_some());
}

#[test]
fn a_counter_with_room_can_be_moved() {
    let mut holder = IndexingStatus::new();
    holder.set_preindexing_started_at(1000, 0).expect("allowed from idle");
    assert!(holder.preindexed_can_move());
    assert!(holder.indexed_can_move());
}

#[test]
fn two_hundred_files_are_shown_every_second_file() {
    let mut holder = IndexingStatus::new();
    holder.set_preindexing_started_at(299, 0).expect("allowed from idle");
    let shown: Vec<bool> =
        (0..6).map(|_| holder.increment_preindexed().expect("in progress").is_some()).collect();
    assert_eq!(shown, vec![false, true, false, true, false, true]);
}

#[test]
fn outside_a_run_the_counters_may_be_asked_to_move() {
    let holder = IndexingStatus::new();
    assert!(holder.preindexed_can_move());
    assert!(holder.indexed_can_move());
}

#[test]
fn the_status_does_not_go_back_but_by_set_idle() {
    let mut holder = IndexingStatus::new();
    holder.set_preindexing_started_at(1000, 1).expect("allowed from idle");
    assert_eq!(holder.set_started(), Err(InvalidStatusTransition::PastThatPhase));
    holder.set_indexing_started_at(10, 2).expect("in progress");
    let status = holder.get_status();
    assert_eq!(holder.set_started(), Err(InvalidStatusTransition::PastThatPhase));
    assert_eq!(
        holder.set_preindexing_started_at(1000, 3),
        Err(InvalidStatusTransition::PastThatPhase)
    );
    assert_eq!(holder.set_preindexing_started(1000), Err(InvalidStatusTransition::PastThatPhase));
    assert_eq!(holder.get_status(), status);
    holder.set_idle();
    assert_eq!(holder.set_started(), Ok(IndexingStatusChanged(Status::Started)));
}

#[test]
fn a_phase_may_be_entered_again() {
    let mut holder = IndexingStatus::new();
    holder.set_started().expect("allowed from idle");
    assert!(holder.set_started().is_ok());
    holder.set_preindexing_started_at(1000, 1).expect("allowed");
    holder.increment_preindexed().expect("in progress");
    assert_eq!(
        holder.set_preindexing_started_at(2000, 2),
        Ok(IndexingStatusChanged(preindexing(2000, 2, 0)))
    );
}
