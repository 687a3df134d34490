use openmeters::sink::{
    acquirable, bytes_per_sample, converted_sample_count, keeps_recycled, pool_capacity,
    requested_pool_capacity, PacketQueue, SampleFormat, VirtualSinkState,
    CAPTURE_POOL_INITIAL_SAMPLES, CAPTURE_POOL_MAX_SAMPLES, VIRTUAL_SINK_SAMPLE_RATE,
};

#[test]
fn virtual_sink_state_defaults_match_requested_configuration() {
    let state = VirtualSinkState::default();
    assert_eq!(state.channels, 2);
    assert_eq!(state.sample_rate, VIRTUAL_SINK_SAMPLE_RATE);
    assert_eq!(state.format, SampleFormat::F32LE);
    assert_eq!(
        state.frame_bytes,
        2 * bytes_per_sample(state.format).unwrap()
    );
}

#[test]
fn update_from_info_clamps_channels_and_updates_frame_bytes() {
    let mut state = VirtualSinkState::default();
    state.update_from_info(0, 44_100, SampleFormat::S16LE);
    assert_eq!(state.channels, 1, "channels should be clamped to at least 1");
    assert_eq!(state.sample_rate, 44_100);
    assert_eq!(state.format, SampleFormat::S16LE);
    assert_eq!(state.frame_bytes, bytes_per_sample(state.format).unwrap());

    state.update_from_info(6, 96_000, SampleFormat::F64BE);
    assert_eq!(state.frame_bytes, 48);
    state.update_from_info(4, 48_000, SampleFormat::Other);
    assert_eq!((state.channels, state.frame_bytes), (4, 48));
}

#[test]
fn sample_counts_need_whole_samples_of_a_known_format() {
    assert_eq!(converted_sample_count(4, SampleFormat::S16LE), Some(2));
    assert_eq!(converted_sample_count(8, SampleFormat::F32BE), Some(2));
    assert_eq!(converted_sample_count(2, SampleFormat::U8), Some(2));
    assert_eq!(converted_sample_count(3, SampleFormat::S16LE), None);
    assert_eq!(converted_sample_count(4, SampleFormat::Other), None);
    assert_eq!(bytes_per_sample(SampleFormat::S24_32LE), Some(4));
}

#[test]
fn the_pool_grows_to_powers_of_two_within_bounds() {
    assert_eq!(requested_pool_capacity(0), None);
    assert_eq!(requested_pool_capacity(1), Some(CAPTURE_POOL_INITIAL_SAMPLES));
    assert_eq!(
        requested_pool_capacity(CAPTURE_POOL_INITIAL_SAMPLES + 1),
        Some(8_192)
    );
    assert_eq!(requested_pool_capacity(8_192), Some(8_192));
    assert_eq!(requested_pool_capacity(40_000), Some(65_536));
    assert_eq!(
        requested_pool_capacity(CAPTURE_POOL_MAX_SAMPLES + 1),
        Some(CAPTURE_POOL_MAX_SAMPLES)
    );
    assert!(!acquirable(0));
    assert!(acquirable(1));
    assert!(acquirable(CAPTURE_POOL_MAX_SAMPLES));
    assert!(!acquirable(CAPTURE_POOL_MAX_SAMPLES + 1));
    assert!(keeps_recycled(4_096, 0, 9));
    assert!(!keeps_recycled(4_096, 9, 9));
    assert!(!keeps_recycled(CAPTURE_POOL_MAX_SAMPLES + 1, 0, 9));
    assert_eq!(pool_capacity(64), 72);
    assert_eq!(pool_capacity(usize::MAX), usize::MAX);
}

#[test]
fn full_queues_drop_their_oldest_packet() {
    let mut queue = PacketQueue::new(2);
    assert_eq!(queue.push(vec![1.0_f32]), (None, false));
    assert_eq!(queue.push(vec![2.0]), (None, false));
    assert_eq!(queue.push(vec![3.0]), (Some(vec![1.0]), true));
    assert_eq!(queue.pop(), Some(vec![2.0]));
    assert_eq!(queue.pop(), Some(vec![3.0]));
    assert_eq!(queue.pop(), None);
    assert!(queue.is_empty());

    let mut unbuffered = PacketQueue::new(0);
    assert_eq!(unbuffered.push(1_u8), (None, true));
    assert_eq!(unbuffered.push(2), (Some(1), true));
    assert_eq!(unbuffered.pop(), Some(2));
}
