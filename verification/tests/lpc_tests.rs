use ecoz2::error::EcozError;
use ecoz2::frames::{frame_layout, frame_outcome, FrameLayout};
use ecoz2::schedule::{assemble, partition, partition_for_machine, FrameRange, SequentialRun};

fn get_input() -> Vec<i32> {
    vec![
        0, 1, 7, 2, 5, 8, 16, 3, 19, 6, 14, 9, 9, 17, 17, 4, 12, 20, 20, 7, 7, 15, 15, 10, 23,
    ]
}

#[test]
fn test_clone() {
    let inp = get_input();

    let signal = {
        let mut x = vec![0i32; inp.len()];
        x.clone_from_slice(&inp[..inp.len()]);
        x
    };
    assert_eq!(inp, signal);
}

#[test]
fn frame_layout_of_one_second() {
    let layout = frame_layout(1000, 1000, 45, 15).unwrap();
    assert_eq!(
        layout,
        FrameLayout { num_samples: 1000, win_size: 45, offset: 15, num_frames: 64 }
    );
    assert_eq!(layout.frame_bounds(0), (0, 45));
    assert_eq!(layout.frame_bounds(63), (945, 990));
}

#[test]
fn frame_layout_of_the_sample_input() {
    let inp = get_input();
    // 25 samples at 1000 Hz: windows of 10 samples, 5 apart.
    let layout = frame_layout(inp.len(), 1000, 10, 5).unwrap();
    assert_eq!(layout.win_size, 10);
    assert_eq!(layout.offset, 5);
    assert_eq!(layout.num_frames, 4);
    let (from, to) = layout.frame_bounds(3);
    assert_eq!((from, to), (15, 25));
    assert_eq!(&inp[from..to], &[4, 12, 20, 20, 7, 7, 15, 15, 10, 23]);
}

#[test]
fn frame_layout_window_equal_to_signal() {
    let layout = frame_layout(45, 1000, 45, 15).unwrap();
    assert_eq!(layout.num_frames, 1);
    assert_eq!(layout.frame_bounds(0), (0, 45));
}

#[test]
fn frame_layout_refuses_short_signal() {
    assert_eq!(frame_layout(44, 1000, 45, 15), Err(EcozError::SignalTooShort));
    assert_eq!(frame_layout(0, 16000, 45, 15), Err(EcozError::SignalTooShort));
}

#[test]
fn frame_layout_scales_with_sample_rate() {
    let layout = frame_layout(16000, 16000, 45, 15).unwrap();
    assert_eq!(layout.win_size, 720);
    assert_eq!(layout.offset, 240);
    assert_eq!(layout.num_frames, (16000 - (720 - 240)) / 240);
    assert_eq!(layout.num_frames, 64);
}

#[test]
fn partition_gives_remainder_to_last_worker() {
    let ranges = partition(10, 3);
    assert_eq!(
        ranges,
        vec![
            FrameRange { low: 0, upp: 3 },
            FrameRange { low: 3, upp: 6 },
            FrameRange { low: 6, upp: 10 },
        ]
    );
}

#[test]
fn partition_with_more_workers_than_frames() {
    let ranges = partition(2, 4);
    assert_eq!(
        ranges,
        vec![
            FrameRange { low: 0, upp: 0 },
            FrameRange { low: 0, upp: 0 },
            FrameRange { low: 0, upp: 0 },
            FrameRange { low: 0, upp: 2 },
        ]
    );
}

#[test]
fn partition_of_no_frames() {
    assert_eq!(partition(0, 2), vec![FrameRange { low: 0, upp: 0 }; 2]);
}

#[test]
fn partition_covers_every_frame_once() {
    for workers in 1..9 {
        for num_frames in 0..40 {
            let ranges = partition(num_frames, workers);
            assert_eq!(ranges.len(), workers);
            let mut next = 0;
            for range in &ranges {
                assert_eq!(range.low, next);
                assert!(range.low <= range.upp);
                next = range.upp;
            }
            assert_eq!(next, num_frames);
        }
    }
}

#[test]
fn partition_for_machine_covers_every_frame() {
    let ranges = partition_for_machine(1000);
    assert!(!ranges.is_empty());
    assert_eq!(ranges[0].low, 0);
    assert_eq!(ranges[ranges.len() - 1].upp, 1000);
    assert_eq!(ranges, partition(1000, ranges.len()));
}

#[test]
fn assemble_orders_by_frame_index() {
    let arrivals = vec![(2, "c"), (0, "a"), (3, "d"), (1, "b")];
    let assembled = assemble(4, arrivals);
    assert_eq!(assembled.vectors, vec![Some("a"), Some("b"), Some("c"), Some("d")]);
    assert_eq!(assembled.succeeded, 4);
    assert_eq!(assembled.failed, 0);
}

#[test]
fn assemble_leaves_holes_for_failed_frames() {
    let arrivals = vec![(3, vec![3.5f64]), (1, vec![1.5f64])];
    let assembled = assemble(5, arrivals);
    assert_eq!(
        assembled.vectors,
        vec![None, Some(vec![1.5]), None, Some(vec![3.5]), None]
    );
    assert_eq!(assembled.succeeded, 2);
    assert_eq!(assembled.failed, 3);
}

#[test]
fn assemble_is_independent_of_arrival_order() {
    let first = assemble(3, vec![(0, 10), (1, 11), (2, 12)]);
    let second = assemble(3, vec![(2, 12), (0, 10), (1, 11)]);
    assert_eq!(first.vectors, second.vectors);
}

#[test]
fn assemble_keeps_last_arrival_of_a_tag() {
    let assembled = assemble(2, vec![(1, 'x'), (1, 'y')]);
    assert_eq!(assembled.vectors, vec![None, Some('y')]);
    assert_eq!(assembled.succeeded, 1);
    assert_eq!(assembled.failed, 1);
}

#[test]
fn assemble_nothing() {
    let assembled = assemble::<u8>(0, vec![]);
    assert!(assembled.vectors.is_empty());
    assert_eq!((assembled.succeeded, assembled.failed), (0, 0));
}

#[test]
fn sequential_run_stops_at_first_failure() {
    let outcomes = [Some(1), Some(2), None, Some(4)];
    let mut run = SequentialRun::new(4);
    while let Some(frame) = run.next_frame() {
        run.record(outcomes[frame]);
    }
    assert!(run.aborted);
    assert_eq!(run.vectors, vec![1, 2]);
    assert_eq!(run.frames_processed(), 2);
}

#[test]
fn sequential_run_completes() {
    let mut run = SequentialRun::new(3);
    let mut frames = vec![];
    while let Some(frame) = run.next_frame() {
        frames.push(frame);
        run.record(Some(frame * 10));
    }
    assert_eq!(frames, vec![0, 1, 2]);
    assert!(!run.aborted);
    assert_eq!(run.vectors, vec![0, 10, 20]);
}

#[test]
fn parallel_matches_sequential_on_frames_that_succeed() {
    let outcome = |t: usize| if t == 5 { None } else { Some((t * t) as i64) };
    let num_frames = 8;
    // Workers hand back their ranges in reverse, last worker first.
    let mut arrivals = vec![];
    for range in partition(num_frames, 3).iter().rev() {
        for t in (range.low..range.upp).rev() {
            if let Some(v) = outcome(t) {
                arrivals.push((t, v));
            }
        }
    }
    let assembled = assemble(num_frames, arrivals);
    let mut run = SequentialRun::new(num_frames);
    while let Some(frame) = run.next_frame() {
        run.record(outcome(frame));
    }
    assert_eq!(run.vectors.len(), 5);
    for (t, v) in run.vectors.iter().enumerate() {
        assert_eq!(assembled.vectors[t], Some(*v));
    }
    for t in 0..num_frames {
        assert_eq!(assembled.vectors[t], outcome(t));
    }
    assert_eq!(assembled.failed, 1);
}

#[test]
fn frame_outcome_of_each_status() {
    assert_eq!(frame_outcome(0), Ok(()));
    assert_eq!(frame_outcome(1), Err(EcozError::DegenerateFrame));
    assert_eq!(frame_outcome(2), Err(EcozError::UnstableFrame));
    assert_eq!(frame_outcome(-1), Err(EcozError::UnstableFrame));
}

#[test]
fn frame_layout_with_gaps_between_frames() {
    // windows of 2 samples, 5 apart, in 10 samples: frames at 0 and 5
    let layout = frame_layout(10, 1000, 2, 5).unwrap();
    assert_eq!((layout.win_size, layout.offset, layout.num_frames), (2, 5, 2));
    assert_eq!(layout.frame_bounds(1), (5, 7));
    let layout = frame_layout(12, 1000, 2, 5).unwrap();
    assert_eq!(layout.num_frames, 3);
    assert_eq!(layout.frame_bounds(2), (10, 12));
}

#[test]
fn frame_layout_last_frame_stays_inside() {
    for num_samples in 45..200 {
        let layout = frame_layout(num_samples, 1000, 45, 15).unwrap();
        let (_, to) = layout.frame_bounds(layout.num_frames - 1);
        assert!(to <= num_samples);
        assert!(to + 15 > num_samples);
        assert_eq!(layout.num_frames, (num_samples - (45 - 15)) / 15);
    }
}
