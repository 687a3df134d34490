use openmeters::transport::{
    audio_chunk, block_start, buffer_action, classify_buffer, defer_retry, frames_ns,
    idle_silence, idle_watchdog_ns, nanos, ns_frames, ns_frames_ceil, packet_alignment,
    packet_frame_limit, packet_pool_limit, packet_span, pcm_chunk, retry_deadline, scale,
    take_retry_delay, BufferAction, BufferKind, RESOURCE_RETRY_MAX_NS,
};
use openmeters::transport::{
    backlog_fault, ingest_set_active, ingest_sleep, ingest_wake, DrainOpening, IngestState,
    ReaderClock, MAX_BACKLOG_NS,
};

#[test]
fn audio_chunk_respects_offset_and_frame_alignment() {
    let bytes: Vec<_> = (0_u8..16).collect();

    assert_eq!(audio_chunk(&bytes, 4, 8, 4), Some(&bytes[4..12]));
    assert_eq!(audio_chunk(&bytes, 4, 10, 4), Some(&bytes[4..12]));
    assert_eq!(audio_chunk(&bytes, 14, 4, 4), None);
    assert_eq!(audio_chunk(&bytes, 20, 4, 4), None);
}


const SECOND: u64 = 1_000_000_000;

#[test]
fn packet_sizes_follow_the_flush_interval() {
    assert_eq!(packet_frame_limit(48_000), 256);
    assert_eq!(packet_frame_limit(1_000), 50);
    assert_eq!(packet_frame_limit(10), 1);
    assert_eq!(packet_frame_limit(0), 1);
    assert_eq!(packet_pool_limit(48_000, 1_000), 251);
    assert_eq!(packet_pool_limit(48_000, 16), 17);
    assert_eq!(packet_pool_limit(1_000, 1_000), 28);
}

#[test]
fn idle_watchdog_covers_a_packet_and_a_flush() {
    assert_eq!(idle_watchdog_ns(48_000), 100_000_000);
    assert_eq!(idle_watchdog_ns(1_000), 100_000_000);
    assert_eq!(idle_watchdog_ns(10), 150_000_000);
}

#[test]
fn frame_and_time_conversions() {
    assert_eq!(frames_ns(48_000, 48_000), SECOND);
    assert_eq!(ns_frames(SECOND, 48_000), 48_000);
    assert_eq!(ns_frames(1, 48_000), 0);
    assert_eq!(ns_frames_ceil(1, 48_000), 1);
    assert_eq!(ns_frames_ceil(SECOND, 48_000), 48_000);
    assert_eq!(scale(u64::MAX, 2, 1), u64::MAX);
    assert_eq!(scale(10, 3, 4), 7);
    assert_eq!(nanos(u128::MAX), u64::MAX);
    assert_eq!(nanos(42), 42);
}

#[test]
fn frames_survive_a_round_trip_through_time() {
    let ns = frames_ns(1_000, 44_100);
    assert_eq!(ns, 22_675_736);
    assert_eq!(ns_frames(ns, 44_100), 999);
    assert_eq!(ns_frames_ceil(ns, 44_100), 1_000);
    assert!(ns_frames(frames_ns(480, 48_000), 48_000) <= 480);
}

#[test]
fn pcm_chunks_wrap_in_whole_frames() {
    assert_eq!(pcm_chunk(16, 12, 8, 4), Some([12..16, 0..4]));
    assert_eq!(pcm_chunk(16, 0, 7, 4), Some([0..4, 0..0]));
    assert_eq!(pcm_chunk(16, 20, 64, 4), Some([4..16, 0..4]));
    assert_eq!(pcm_chunk(16, 0, 3, 4), None);
    assert_eq!(pcm_chunk(0, 0, 8, 4), None);
    assert_eq!(pcm_chunk(16, 0, 8, 0), None);
}

#[test]
fn retry_delays_double_up_to_their_maximum() {
    let mut delay = SECOND;
    assert_eq!(take_retry_delay(&mut delay, 30 * SECOND), SECOND);
    assert_eq!(delay, 2 * SECOND);
    let mut delay = 20 * SECOND;
    assert_eq!(take_retry_delay(&mut delay, 30 * SECOND), 20 * SECOND);
    assert_eq!(delay, 30 * SECOND);

    let mut delay = 16 * SECOND;
    assert_eq!(retry_deadline(5 * SECOND, &mut delay), 21 * SECOND);
    assert_eq!(delay, RESOURCE_RETRY_MAX_NS);
}

#[test]
fn retries_are_not_deferred_past_a_pending_one() {
    let mut at = None;
    let mut delay = SECOND;
    assert!(defer_retry(&mut at, &mut delay, 5 * SECOND));
    assert_eq!((at, delay), (Some(6 * SECOND), 2 * SECOND));
    assert!(!defer_retry(&mut at, &mut delay, 5 * SECOND + 500));
    assert_eq!((at, delay), (Some(6 * SECOND), 2 * SECOND));
    assert!(defer_retry(&mut at, &mut delay, 6 * SECOND));
    assert_eq!((at, delay), (Some(8 * SECOND), 4 * SECOND));
}

#[test]
fn packet_timelines_stay_authoritative_for_the_reader() {
    const MS: u64 = 1_000_000;
    // Mono at 1 kHz: packets of four frames at frames 0, 6 and 8.
    assert_eq!(packet_alignment(0, true, 0, 4 * MS, 4, 1_000), (0, 0, 4 * MS));
    assert_eq!(packet_alignment(4 * MS, false, 6 * MS, 10 * MS, 4, 1_000), (2, 0, 10 * MS));
    assert_eq!(packet_alignment(10 * MS, false, 8 * MS, 12 * MS, 4, 1_000), (0, 2, 12 * MS));
    // A packet the cursor has passed entirely is skipped whole.
    assert_eq!(packet_alignment(20 * MS, false, 8 * MS, 12 * MS, 4, 1_000), (0, 4, 20 * MS));
}

#[test]
fn idle_readers_are_seeded_with_silence() {
    const MS: u64 = 1_000_000;
    assert_eq!(idle_silence(0, 10 * MS, false, false, 48_000), (0, 10 * MS));
    assert_eq!(idle_silence(10 * MS, 20 * MS, false, true, 48_000), (480, 20 * MS));
    assert_eq!(idle_silence(10 * MS, 20 * MS, true, true, 48_000), (0, 10 * MS));
    assert_eq!(
        idle_silence(0, 300 * MS, true, true, 48_000),
        (9_600, 200 * MS)
    );
    assert_eq!(idle_silence(20 * MS, 10 * MS, false, true, 48_000), (0, 20 * MS));
}

#[test]
fn packet_spans_follow_the_running_span() {
    const MS: u64 = 1_000_000;
    let mut previous = 0..0;
    assert_eq!(packet_span(&mut previous, 100 * MS, 48, 48_000), (99 * MS, 100 * MS));
    assert_eq!(previous, 100 * MS..100 * MS);
    assert_eq!(packet_span(&mut previous, 101 * MS, 48, 48_000), (100 * MS, 101 * MS));
    assert_eq!(previous, 101 * MS..101 * MS);
    assert_eq!(packet_span(&mut previous, 500 * MS, 48, 48_000), (499 * MS, 500 * MS));
    let mut previous = 0..0;
    assert_eq!(packet_span(&mut previous, 0, 0, 48_000), (0, 1));
}

#[test]
fn blocks_take_their_share_of_a_packet_span() {
    assert_eq!(block_start(1_000, 2_000, 0, 4), 1_000);
    assert_eq!(block_start(1_000, 2_000, 1, 4), 1_250);
    assert_eq!(block_start(1_000, 2_000, 4, 4), 2_000);
    assert_eq!(block_start(1_000, 1_001, 1, 3), 1_000);
}

#[test]
fn buffer_metadata_distinguishes_pcm_silence_and_faults() {
    assert_eq!(classify_buffer(false, false, false, false, false), BufferKind::Pcm);
    assert_eq!(classify_buffer(false, false, false, false, true), BufferKind::Silence);
    assert_eq!(classify_buffer(false, false, false, true, false), BufferKind::Fault);
    assert_eq!(classify_buffer(true, false, false, false, true), BufferKind::Fault);
    assert_eq!(classify_buffer(false, true, false, false, false), BufferKind::Silence);
}

#[test]
fn buffers_become_audio_silence_or_faults() {
    assert_eq!(
        buffer_action(2, 64, 60, 16, 8, BufferKind::Pcm, true),
        BufferAction::Pcm([60..64, 0..12], 2)
    );
    assert_eq!(
        buffer_action(2, 64, 0, 16, 0, BufferKind::Pcm, false),
        BufferAction::Fault(2)
    );
    assert_eq!(
        buffer_action(2, 64, 0, 16, 4, BufferKind::Pcm, true),
        BufferAction::Fault(2)
    );
    assert_eq!(
        buffer_action(2, 64, 0, 16, -8, BufferKind::Silence, true),
        BufferAction::Fault(2)
    );
    assert_eq!(
        buffer_action(2, 64, 0, 16, 8, BufferKind::Silence, true),
        BufferAction::Silence(2)
    );
    assert_eq!(
        buffer_action(1, 64, 0, 3, 0, BufferKind::Pcm, true),
        BufferAction::Ignore
    );
}

#[test]
fn a_backlog_over_one_second_is_a_fault() {
    assert_eq!(MAX_BACKLOG_NS, 1_000_000_000);
    assert!(!backlog_fault(1_500_000_000, 500_000_000, true));
    assert!(backlog_fault(1_500_000_001, 500_000_000, true));
    assert!(!backlog_fault(1_500_000_001, 500_000_000, false));
    assert!(!backlog_fault(100, 5_000_000_000, true));
}

#[test]
fn ingestion_switches_sleeps_and_wakes() {
    assert_eq!(ingest_set_active(IngestState::Active, true), (IngestState::Active, false));
    assert_eq!(ingest_set_active(IngestState::Active, false), (IngestState::Disabled, true));
    assert_eq!(ingest_set_active(IngestState::Dormant, true), (IngestState::Active, true));
    assert_eq!(ingest_set_active(IngestState::Disabled, false), (IngestState::Disabled, false));

    assert_eq!(ingest_sleep(IngestState::Active, false), (IngestState::Dormant, true));
    assert_eq!(ingest_sleep(IngestState::Active, true), (IngestState::Active, false));
    assert_eq!(ingest_sleep(IngestState::Dormant, false), (IngestState::Dormant, true));
    assert_eq!(ingest_sleep(IngestState::Disabled, false), (IngestState::Disabled, false));

    assert_eq!(ingest_wake(IngestState::Dormant), (IngestState::Active, true));
    assert_eq!(ingest_wake(IngestState::Active), (IngestState::Active, false));
    assert_eq!(ingest_wake(IngestState::Disabled), (IngestState::Disabled, false));
}

#[test]
fn a_reader_drain_opens_reads_and_closes_on_its_timeline() {
    let mut clock = ReaderClock {
        cursor: 5,
        align_next_packet: false,
        dormant: true,
    };
    let now = 3_000_000_000;
    assert_eq!(
        clock.open_drain(IngestState::Dormant, true, true, None, now),
        DrainOpening::Skip
    );
    assert_eq!(clock.cursor, 5);
    assert!(clock.dormant);

    assert_eq!(
        clock.open_drain(IngestState::Active, true, true, Some((1_000_000_000, true)), now),
        DrainOpening::Read { restart: true, fault: true }
    );
    assert_eq!(clock.cursor, now);
    assert!(clock.align_next_packet);
    assert!(!clock.dormant);

    assert_eq!(
        clock.open_drain(IngestState::Active, true, true, Some((2_500_000_000, true)), now),
        DrainOpening::Read { restart: false, fault: false }
    );

    assert_eq!(clock.accept_packet(4_000_000_000, 4_500_000_000, 24_000, 48_000), (0, 0));
    assert_eq!(clock.cursor, 4_500_000_000);
    assert!(!clock.align_next_packet);
    assert_eq!(clock.accept_packet(5_000_000_000, 5_500_000_000, 24_000, 48_000), (24_000, 0));
    assert_eq!(clock.cursor, 5_500_000_000);

    assert_eq!(clock.close_drain(false, true, 48_000, 6_500_000_000), (true, 48_000));
    assert_eq!(clock.cursor, 6_500_000_000);
    assert!(clock.align_next_packet);

    let mut unknown = ReaderClock {
        cursor: 0,
        align_next_packet: false,
        dormant: false,
    };
    assert_eq!(unknown.close_drain(false, false, 48_000, 7), (false, 0));
    assert_eq!(unknown.cursor, 7);
}
