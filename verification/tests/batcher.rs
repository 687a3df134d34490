use openmeters::batcher::{tap_idle, tap_packet, SampleBatcher, MAX_RECYCLED_BUFFERS};

#[test]
fn batches_and_reuses_buffers() {
    let mut batcher = SampleBatcher::new(4);
    batcher.push(vec![0.0, 1.0]);
    assert!(!batcher.should_flush());
    batcher.push(vec![2.0, 3.0]);
    assert!(batcher.should_flush());

    let batch = batcher.take().expect("batch should be available");
    assert_eq!(batch, vec![0.0, 1.0, 2.0, 3.0]);
    assert!(batcher.take().is_none());

    batcher.push(vec![4.0, 5.0]);
    batcher.push(vec![6.0, 7.0]);
    let second = batcher.take().expect("second batch available");
    assert_eq!(second, vec![4.0, 5.0, 6.0, 7.0]);
}

#[test]
fn lone_chunks_leave_whole_and_recycling_is_bounded() {
    let mut batcher: SampleBatcher<f32> = SampleBatcher::new(100);
    batcher.push(vec![1.0, 2.0, 3.0]);
    assert_eq!(batcher.take(), Some(vec![1.0, 2.0, 3.0]));
    assert!(batcher.recycle.is_empty());

    for round in 0..3 {
        for i in 0..6 {
            batcher.push(vec![i as f32 + round as f32]);
        }
        let batch = batcher.take().expect("batch");
        assert_eq!(batch.len(), 6);
        assert!(batcher.recycle.len() <= MAX_RECYCLED_BUFFERS);
        assert!(batcher.recycle.iter().all(|buffer| buffer.is_empty()));
    }
    assert!(batcher.is_empty());
}

#[test]
fn the_tap_flushes_on_format_change_size_and_time() {
    let mut batcher: SampleBatcher<f32> = SampleBatcher::new(4);
    assert_eq!(tap_packet(&mut batcher, true, vec![1.0, 2.0], false), (None, false, None));
    assert_eq!(
        tap_packet(&mut batcher, true, vec![3.0], false),
        (Some(vec![1.0, 2.0]), false, None)
    );
    assert_eq!(
        tap_packet(&mut batcher, false, vec![4.0, 5.0, 6.0], false),
        (None, true, Some(vec![3.0, 4.0, 5.0, 6.0]))
    );
    assert_eq!(
        tap_packet(&mut batcher, false, vec![7.0], true),
        (None, true, Some(vec![7.0]))
    );
    assert_eq!(tap_packet(&mut batcher, false, Vec::new(), true), (None, true, None));
    assert_eq!(tap_idle(&mut batcher, true), None);
    batcher.push(vec![8.0]);
    assert_eq!(tap_idle(&mut batcher, false), None);
    assert_eq!(tap_idle(&mut batcher, true), Some(vec![8.0]));
}
