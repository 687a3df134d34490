//! The arithmetic of moving captured audio: time and frame conversions,
//! packet and pool sizes, buffer windows and retry back-off.
use std::ops::Range;
use vstd::prelude::*;

verus! {

/// Frames in one transport block.
pub const BLOCK_FRAMES: usize = 256;

/// How often a partly filled packet is flushed, in nanoseconds.
pub const PACKET_FLUSH_INTERVAL_NS: u64 = 50_000_000;

/// How long a capture may stay silent before the watchdog acts, at least,
/// in nanoseconds.
pub const IDLE_WATCHDOG_NS: u64 = 100_000_000;

/// Nanoseconds in a second.
pub const NANOS_PER_SECOND: u64 = 1_000_000_000;

/// `value * numerator / denominator`, capped at `u64::MAX`.
pub open spec fn scale_spec(value: u64, numerator: u64, denominator: u64) -> u64 {
    let exact = (value as int) * (numerator as int) / (denominator as int);
    if exact > u64::MAX {
        u64::MAX
    } else {
        exact as u64
    }
}

/// `value * numerator / denominator`, computed without overflow and capped
/// at `u64::MAX`.
pub fn scale(value: u64, numerator: u64, denominator: u64) -> (r: u64)
    requires
        denominator > 0,
    ensures
        r == scale_spec(value, numerator, denominator),
{
    proof {
        let (v, n) = (value as int, numerator as int);
        assert(v * n <= 0xffff_ffff_ffff_ffff * 0xffff_ffff_ffff_ffffint) by (nonlinear_arith)
            requires
                0 <= v <= 0xffff_ffff_ffff_ffff,
                0 <= n <= 0xffff_ffff_ffff_ffff,
        ;
    }
    let product: u128 = value as u128 * numerator as u128;
    let q = product / denominator as u128;
    if q > u64::MAX as u128 {
        u64::MAX
    } else {
        q as u64
    }
}

/// The duration of `frames` frames at `rate` frames per second, in
/// nanoseconds.
pub fn frames_ns(frames: u64, rate: u64) -> (r: u64)
    requires
        rate > 0,
    ensures
        r == scale_spec(frames, NANOS_PER_SECOND, rate),
{
    scale(frames, NANOS_PER_SECOND, rate)
}

/// The whole frames that `ns` nanoseconds hold at `rate` frames per
/// second.
pub fn ns_frames(ns: u64, rate: u64) -> (r: u64)
    ensures
        r == scale_spec(ns, rate, NANOS_PER_SECOND),
{
    scale(ns, rate, NANOS_PER_SECOND)
}

/// The frames that `ns` nanoseconds span at `rate` frames per second,
/// rounding up and capping at `u64::MAX`.
pub open spec fn ns_frames_ceil_spec(ns: u64, rate: u64) -> u64 {
    let exact = ((ns as int) * (rate as int) + 999_999_999) / 1_000_000_000;
    if exact > u64::MAX {
        u64::MAX
    } else {
        exact as u64
    }
}

/// The frames that `ns` nanoseconds span, rounding up.
pub fn ns_frames_ceil(ns: u64, rate: u64) -> (r: u64)
    ensures
        r == ns_frames_ceil_spec(ns, rate),
{
    proof {
        let (v, n) = (ns as int, rate as int);
        assert(v * n <= 0xffff_ffff_ffff_ffff * 0xffff_ffff_ffff_ffffint) by (nonlinear_arith)
            requires
                0 <= v <= 0xffff_ffff_ffff_ffff,
                0 <= n <= 0xffff_ffff_ffff_ffff,
        ;
    }
    let product: u128 = ns as u128 * rate as u128;
    let q = (product + 999_999_999) / 1_000_000_000;
    if q > u64::MAX as u128 {
        u64::MAX
    } else {
        q as u64
    }
}

/// A count of nanoseconds capped at `u64::MAX`.
pub fn nanos(total: u128) -> (r: u64)
    ensures
        r == if total > u64::MAX {
            u64::MAX
        } else {
            total as u64
        },
{
    if total > u64::MAX as u128 {
        u64::MAX
    } else {
        total as u64
    }
}

/// The frames that one packet holds at most: a flush interval's worth,
/// between one frame and one block.
pub open spec fn packet_frame_limit_spec(rate: u64) -> int {
    let frames = (rate as int) * (PACKET_FLUSH_INTERVAL_NS as int) / 1_000_000_000;
    if frames < 1 {
        1
    } else if frames > BLOCK_FRAMES {
        BLOCK_FRAMES as int
    } else {
        frames
    }
}

/// The frames that one packet holds at most.
pub fn packet_frame_limit(rate: u64) -> (r: usize)
    ensures
        r == packet_frame_limit_spec(rate),
        1 <= r <= BLOCK_FRAMES,
{
    let frames: u128 = rate as u128 * PACKET_FLUSH_INTERVAL_NS as u128 / 1_000_000_000;
    if frames < 1 {
        1
    } else if frames > BLOCK_FRAMES as u128 {
        BLOCK_FRAMES
    } else {
        frames as usize
    }
}

/// The packets that the pool keeps: enough for four thirds of a second of
/// audio, no more than the queue holds, and one spare.
pub open spec fn packet_pool_limit_spec(rate: u64, queue_capacity: usize) -> int {
    let per_packet = packet_frame_limit_spec(rate) * 3;
    let needed = ((rate as int) * 4 + per_packet - 1) / per_packet;
    (if needed < queue_capacity {
        needed
    } else {
        queue_capacity as int
    }) + 1
}

/// The packets that the pool keeps.
pub fn packet_pool_limit(rate: u64, queue_capacity: usize) -> (r: usize)
    requires
        (rate as int) * 4 <= usize::MAX,
    ensures
        r == packet_pool_limit_spec(rate, queue_capacity),
{
    let per_packet = packet_frame_limit(rate) * 3;
    let total = rate as usize * 4;
    let needed = total / per_packet + if total % per_packet == 0 {
        0
    } else {
        1
    };
    proof {
        let t = total as int;
        let p = per_packet as int;
        assert(needed == (t + p - 1) / p) by (nonlinear_arith)
            requires
                p >= 3,
                t >= 0,
                needed == t / p + if t % p == 0 {
                    0int
                } else {
                    1int
                },
        ;
        assert(needed <= t) by (nonlinear_arith)
            requires
                p >= 3,
                t >= 0,
                needed == t / p + if t % p == 0 {
                    0int
                } else {
                    1int
                },
        ;
    }
    let kept = if needed < queue_capacity {
        needed
    } else {
        queue_capacity
    };
    kept + 1
}

/// How long the watchdog waits for audio: at least its own interval, and
/// at least one full packet plus a flush interval.
pub open spec fn idle_watchdog_spec(rate: u64) -> u64 {
    let packet = scale_spec(packet_frame_limit_spec(rate) as u64, NANOS_PER_SECOND, rate);
    let wait = if packet as int + PACKET_FLUSH_INTERVAL_NS > u64::MAX {
        u64::MAX
    } else {
        (packet + PACKET_FLUSH_INTERVAL_NS) as u64
    };
    if wait > IDLE_WATCHDOG_NS {
        wait
    } else {
        IDLE_WATCHDOG_NS
    }
}

/// How long the watchdog waits for audio, in nanoseconds.
pub fn idle_watchdog_ns(rate: u64) -> (r: u64)
    requires
        rate > 0,
    ensures
        r == idle_watchdog_spec(rate),
{
    let packet = frames_ns(packet_frame_limit(rate) as u64, rate);
    let wait = packet.saturating_add(nanos(PACKET_FLUSH_INTERVAL_NS as u128));
    let floor = nanos(IDLE_WATCHDOG_NS as u128);
    if wait > floor {
        wait
    } else {
        floor
    }
}

/// The byte windows of a ring buffer of `max` bytes that hold `size`
/// bytes from `offset` on, in whole frames: the part up to the end of the
/// buffer and the part that wraps to its start.  None when nothing fits.
pub open spec fn pcm_chunk_spec(max: usize, offset: u32, size: u32, frame_bytes: usize) -> Option<
    (int, int, int, int),
> {
    if max == 0 || frame_bytes == 0 {
        None
    } else {
        let bounded = if (size as int) < (max as int) {
            size as int
        } else {
            max as int
        };
        let len = bounded / (frame_bytes as int) * (frame_bytes as int);
        if len == 0 {
            None
        } else {
            let start = (offset as int) % (max as int);
            let first = if len < max - start {
                len
            } else {
                max - start
            };
            Some((start, start + first, 0, len - first))
        }
    }
}

/// The byte windows of a ring buffer that a chunk of audio occupies.
pub fn pcm_chunk(max: usize, offset: u32, size: u32, frame_bytes: usize) -> (r: Option<
    [Range<usize>; 2],
>)
    ensures
        match r {
            Some(w) => pcm_chunk_spec(max, offset, size, frame_bytes) == Some(
                (w[0].start as int, w[0].end as int, w[1].start as int, w[1].end as int),
            ),
            None => pcm_chunk_spec(max, offset, size, frame_bytes) is None,
        },
{
    if max == 0 || frame_bytes == 0 {
        return None;
    }
    let bounded = if (size as usize) < max {
        size as usize
    } else {
        max
    };
    let frames = bounded / frame_bytes;
    proof {
        let b = bounded as int;
        let f = frame_bytes as int;
        assert((b / f) * f <= b) by (nonlinear_arith)
            requires
                f > 0,
                b >= 0,
        ;
    }
    let len = frames * frame_bytes;
    if len == 0 {
        return None;
    }
    let start = offset as usize % max;
    let first = if len < max - start {
        len
    } else {
        max - start
    };
    Some([start..start + first, 0..len - first])
}

/// The bytes of `bytes` that a buffer chunk at `offset` of `size` bytes
/// covers, cut to whole frames of `frame_bytes` (at least one byte): its
/// window within the buffer, when any whole frame is in it.
pub open spec fn audio_chunk_spec(available: int, offset: u32, size: u32, frame_bytes: usize) -> Option<(int, int)> {
    let frame = if frame_bytes == 0 {
        1
    } else {
        frame_bytes as int
    };
    let start = offset as int;
    let reach = if start + size > usize::MAX {
        usize::MAX as int
    } else {
        start + size
    };
    let end = if reach < available {
        reach
    } else {
        available
    };
    if end < start {
        None
    } else {
        let len = (end - start) / frame * frame;
        if len > 0 {
            Some((start, start + len))
        } else {
            None
        }
    }
}

/// The part of a buffer that holds whole frames of a chunk of audio.
pub fn audio_chunk(bytes: &[u8], offset: u32, size: u32, frame_bytes: usize) -> (r: Option<&[u8]>)
    ensures
        match audio_chunk_spec(bytes@.len() as int, offset, size, frame_bytes) {
            Some((start, end)) => r is Some && r->0@ == bytes@.subrange(start, end),
            None => r is None,
        },
{
    let frame = if frame_bytes == 0 {
        1
    } else {
        frame_bytes
    };
    let start = offset as usize;
    let reach = start.saturating_add(size as usize);
    let end = if reach < bytes.len() {
        reach
    } else {
        bytes.len()
    };
    if end < start {
        return None;
    }
    let frames = (end - start) / frame;
    proof {
        let d = (end - start) as int;
        let f = frame as int;
        assert((d / f) * f <= d) by (nonlinear_arith)
            requires
                f > 0,
                d >= 0,
        ;
    }
    let len = frames * frame;
    if len > 0 {
        Some(vstd::slice::slice_subrange(bytes, start, start + len))
    } else {
        None
    }
}

/// The delay after `delay`: twice as long, but no longer than `maximum`.
pub open spec fn next_retry_delay(delay: u64, maximum: u64) -> u64 {
    if (delay as int) * 2 > maximum {
        maximum
    } else {
        (delay * 2) as u64
    }
}

/// How far apart two instants are.
pub open spec fn distance(a: u64, b: u64) -> u64 {
    if a >= b {
        (a - b) as u64
    } else {
        (b - a) as u64
    }
}

/// The previous span `(start, end)` is still running at `now`: it ended,
/// and both its start and its end lie within `watchdog` of `now`.
pub open spec fn span_continues(start: u64, end: u64, now: u64, watchdog: u64) -> bool {
    end != 0 && now.saturating_sub(start) <= watchdog && distance(end, now) <= watchdog
}

/// The span of `frames` frames at `rate` that arrive at `now`: they follow
/// the previous span when it is still running, and end at `now` otherwise.
/// Its length is never zero.
pub open spec fn packet_span_spec(previous: (u64, u64), now: u64, frames: u64, rate: u64) -> (u64, u64) {
    let duration = if scale_spec(frames, NANOS_PER_SECOND, rate) > 1 {
        scale_spec(frames, NANOS_PER_SECOND, rate)
    } else {
        1
    };
    let start = if span_continues(previous.0, previous.1, now, idle_watchdog_spec(rate)) {
        previous.1
    } else {
        now.saturating_sub(duration)
    };
    (start, start.saturating_add(duration))
}

/// The span that `frames` frames arriving at `now` cover, given the
/// previous span; the previous span becomes `now` to its end.
pub fn packet_span(previous: &mut Range<u64>, now: u64, frames: u64, rate: u64) -> (r: (u64, u64))
    requires
        rate > 0,
    ensures
        r == packet_span_spec((old(previous).start, old(previous).end), now, frames, rate),
        final(previous).start == now,
        final(previous).end == r.1,
{
    let measured = frames_ns(frames, rate);
    let duration = if measured > 1 {
        measured
    } else {
        1
    };
    let watchdog = idle_watchdog_ns(rate);
    let apart = if previous.end >= now {
        previous.end - now
    } else {
        now - previous.end
    };
    let continuous = previous.end != 0 && now.saturating_sub(previous.start) <= watchdog && apart
        <= watchdog;
    let start = if continuous {
        previous.end
    } else {
        now.saturating_sub(duration)
    };
    let end = start.saturating_add(duration);
    *previous = now..end;
    (start, end)
}

/// Where block `offset` of a packet of `frames` frames spanning `start`
/// to `end` begins: its share of the span.
pub fn block_start(start: u64, end: u64, offset: u64, frames: u64) -> (r: u64)
    requires
        start <= end,
        offset <= frames,
        frames > 0,
    ensures
        r == start + scale_spec((end - start) as u64, offset, frames),
        start <= r <= end,
{
    let d = end - start;
    proof {
        let (di, oi, fi) = (d as int, offset as int, frames as int);
        assert(di * oi / fi <= di) by (nonlinear_arith)
            requires
                0 <= oi <= fi,
                fi > 0,
                di >= 0,
        ;
        assert(di * oi / fi >= 0) by (nonlinear_arith)
            requires
                0 <= oi,
                fi > 0,
                di >= 0,
        ;
    }
    start + scale(d, offset, frames)
}

/// How a packet spanning `start` to `end` meets the reader's cursor
/// (moved to `start` first when the reader realigns): the silent frames
/// before it, the frames of it that the cursor has passed already (no
/// more than it holds), and the cursor after it.
pub open spec fn packet_alignment_spec(
    cursor: u64,
    realign: bool,
    start: u64,
    end: u64,
    frames: u64,
    rate: u64,
) -> (u64, u64, u64) {
    let c = if realign {
        start
    } else {
        cursor
    };
    let gap = if start > c {
        scale_spec((start - c) as u64, rate, NANOS_PER_SECOND)
    } else {
        0
    };
    let passed = if c < end {
        c
    } else {
        end
    };
    let skip = if c > start {
        let covered = ns_frames_ceil_spec((passed - start) as u64, rate);
        if covered < frames {
            covered
        } else {
            frames
        }
    } else {
        0
    };
    (gap, skip, if c > end {
        c
    } else {
        end
    })
}

/// How a packet meets the reader's cursor: frames of silence before it,
/// frames of it to skip, and the cursor after it.
pub fn packet_alignment(cursor: u64, realign: bool, start: u64, end: u64, frames: u64, rate: u64) -> (r: (
    u64,
    u64,
    u64,
))
    requires
        start <= end,
    ensures
        r == packet_alignment_spec(cursor, realign, start, end, frames, rate),
{
    let c = if realign {
        start
    } else {
        cursor
    };
    let gap = if start > c {
        ns_frames(start - c, rate)
    } else {
        0
    };
    let skip = if c > start {
        let passed = if c < end {
            c
        } else {
            end
        };
        let covered = ns_frames_ceil(passed - start, rate);
        if covered < frames {
            covered
        } else {
            frames
        }
    } else {
        0
    };
    let next = if c > end {
        c
    } else {
        end
    };
    (gap, skip, next)
}

/// The silence that an idle reader owes at `now`: up to `now`, less the
/// watchdog's wait while the stream runs, in whole frames from the cursor;
/// and the cursor after it.  Before any format is known the cursor just
/// follows.
pub open spec fn idle_silence_spec(cursor: u64, now: u64, streaming: bool, known: bool, rate: u64) -> (
    u64,
    u64,
) {
    let target = now.saturating_sub(
        if streaming {
            idle_watchdog_spec(rate)
        } else {
            0
        },
    );
    if !known {
        (0, target)
    } else if target > cursor {
        let frames = scale_spec((target - cursor) as u64, rate, NANOS_PER_SECOND);
        if frames > 0 {
            (frames, cursor.saturating_add(scale_spec(frames, NANOS_PER_SECOND, rate)))
        } else {
            (0, cursor)
        }
    } else {
        (0, cursor)
    }
}

/// The frames of silence an idle reader owes at `now`, and its cursor
/// after them.
pub fn idle_silence(cursor: u64, now: u64, streaming: bool, known: bool, rate: u64) -> (r: (u64, u64))
    requires
        rate > 0,
    ensures
        r == idle_silence_spec(cursor, now, streaming, known, rate),
{
    let wait = if streaming {
        idle_watchdog_ns(rate)
    } else {
        0
    };
    let target = now.saturating_sub(wait);
    if !known {
        return (0, target);
    }
    if target > cursor {
        let frames = ns_frames(target - cursor, rate);
        if frames > 0 {
            return (frames, cursor.saturating_add(frames_ns(frames, rate)));
        }
    }
    (0, cursor)
}

/// What a captured buffer holds, by its flags.
#[derive(Debug, Clone, Copy, PartialEq, Eq, Structural)]
pub enum BufferKind {
    Pcm,
    Silence,
    Fault,
}

/// A buffer is a fault when its chunk or header says it is corrupted or
/// its header marks a discontinuity; otherwise silence when its chunk is
/// empty or its header marks a gap; otherwise audio.
pub fn classify_buffer(
    chunk_corrupted: bool,
    chunk_empty: bool,
    header_corrupted: bool,
    header_discont: bool,
    header_gap: bool,
) -> (r: BufferKind)
    ensures
        r == if chunk_corrupted || header_corrupted || header_discont {
            BufferKind::Fault
        } else if chunk_empty || header_gap {
            BufferKind::Silence
        } else {
            BufferKind::Pcm
        },
{
    if chunk_corrupted || header_corrupted || header_discont {
        BufferKind::Fault
    } else if chunk_empty || header_gap {
        BufferKind::Silence
    } else {
        BufferKind::Pcm
    }
}

/// What the capture does with a buffer.
#[derive(Debug, Clone, PartialEq, Eq)]
pub enum BufferAction {
    /// Nothing usable: no whole frame in it.
    Ignore,
    /// That many frames are lost.
    Fault(u64),
    /// That many frames of silence.
    Silence(u64),
    /// Audio in these windows of the buffer, that many frames.
    Pcm([Range<usize>; 2], u64),
}

/// What to do with a buffer of `channels` 32-bit samples per frame: a
/// stride other than the frame size loses its frames; a chunk without a
/// whole frame is ignored; otherwise its kind decides, and audio without
/// data is lost too.
pub fn buffer_action(
    channels: usize,
    max: usize,
    offset: u32,
    size: u32,
    stride: i32,
    kind: BufferKind,
    has_data: bool,
) -> (r: BufferAction)
    requires
        1 <= channels <= 8,
    ensures
        ({
            let frame_bytes = channels * 4;
            if stride != 0 && (stride < 0 || stride as int != frame_bytes) {
                r == BufferAction::Fault((size as int / frame_bytes) as u64)
            } else {
                match pcm_chunk_spec(max, offset, size, frame_bytes as usize) {
                    None => r == BufferAction::Ignore,
                    Some((s0, e0, s1, e1)) => {
                        let frames = (((e0 - s0) + (e1 - s1)) / frame_bytes) as u64;
                        match kind {
                            BufferKind::Silence => r == BufferAction::Silence(frames),
                            BufferKind::Fault => r == BufferAction::Fault(frames),
                            BufferKind::Pcm => if has_data {
                                r matches BufferAction::Pcm(w, f) && f == frames && (
                                w[0].start as int,
                                w[0].end as int,
                                w[1].start as int,
                                w[1].end as int,
                            ) == (s0, e0, s1, e1)
                            } else {
                                r == BufferAction::Fault(frames)
                            },
                        }
                    },
                }
            }
        }),
{
    let frame_bytes = channels * 4;
    if stride != 0 && (stride < 0 || stride as usize != frame_bytes) {
        return BufferAction::Fault(size as u64 / frame_bytes as u64);
    }
    let chunk = match pcm_chunk(max, offset, size, frame_bytes) {
        Some(c) => c,
        None => {
            return BufferAction::Ignore;
        },
    };
    proof {
        law_pcm_chunk_whole_frames(max, offset, size, frame_bytes);
    }
    let len = (chunk[0].end - chunk[0].start) + (chunk[1].end - chunk[1].start);
    let frames = (len / frame_bytes) as u64;
    match kind {
        BufferKind::Silence => BufferAction::Silence(frames),
        BufferKind::Fault => BufferAction::Fault(frames),
        BufferKind::Pcm => if has_data {
            BufferAction::Pcm(chunk, frames)
        } else {
            BufferAction::Fault(frames)
        },
    }
}

/// The longest time a captured packet may wait for the reader, in
/// nanoseconds; an older one means the reader fell behind.
pub const MAX_BACKLOG_NS: u64 = 1_000_000_000;

/// Whether the packet at the front of the queue shows that the reader fell
/// behind, so that the capture starts over: it was written since the last
/// change of activity and ended more than the longest backlog before `now`.
pub fn backlog_fault(now: u64, packet_end: u64, same_epoch: bool) -> (r: bool)
    ensures
        r == (same_epoch && now - packet_end > MAX_BACKLOG_NS),
{
    same_epoch && now.saturating_sub(packet_end) > MAX_BACKLOG_NS
}

/// Whether captured audio is taken in: switched off, asleep until a signal
/// comes, or taken.
#[derive(Debug, Clone, Copy, PartialEq, Eq, Structural)]
pub enum IngestState {
    Disabled,
    Dormant,
    Active,
}

/// Switches ingestion on or off: the state that follows, and whether it
/// differs from `current` (only then does the reader start a new timeline).
pub fn ingest_set_active(current: IngestState, active: bool) -> (r: (IngestState, bool))
    ensures
        r.0 == (if active {
            IngestState::Active
        } else {
            IngestState::Disabled
        }),
        r.1 == (current != r.0),
{
    let next = if active {
        IngestState::Active
    } else {
        IngestState::Disabled
    };
    (next, current != next)
}

/// Puts taken-in audio to sleep until a signal comes.  Only an active
/// ingestion falls asleep, and it wakes at once when something already
/// waits (`waiting`: a signal, a packet, a fault or a new format).  The
/// state that follows, and whether the ingestion sleeps.
pub fn ingest_sleep(current: IngestState, waiting: bool) -> (r: (IngestState, bool))
    ensures
        current == IngestState::Active && !waiting ==> r == (IngestState::Dormant, true),
        current == IngestState::Active && waiting ==> r == (IngestState::Active, false),
        current != IngestState::Active ==> r == (current, current == IngestState::Dormant),
{
    match current {
        IngestState::Active => if waiting {
            (IngestState::Active, false)
        } else {
            (IngestState::Dormant, true)
        },
        IngestState::Dormant => (IngestState::Dormant, true),
        IngestState::Disabled => (IngestState::Disabled, false),
    }
}

/// Wakes a sleeping ingestion: the state that follows, and whether it woke.
/// Neither a switched-off nor an active one changes.
pub fn ingest_wake(current: IngestState) -> (r: (IngestState, bool))
    ensures
        current == IngestState::Dormant ==> r == (IngestState::Active, true),
        current != IngestState::Dormant ==> r == (current, false),
{
    match current {
        IngestState::Dormant => (IngestState::Active, true),
        _ => (current, false),
    }
}

/// How far back from `now` an idle reader accounts for silence: up to
/// `now`, less the watchdog's wait while the stream runs.
pub open spec fn idle_target(now: u64, streaming: bool, rate: u64) -> u64 {
    now.saturating_sub(
        if streaming {
            idle_watchdog_spec(rate)
        } else {
            0
        },
    )
}

/// How a drain of the captured packets opens.
#[derive(Debug, Clone, Copy, PartialEq, Eq, Structural)]
pub enum DrainOpening {
    /// Ingestion is not active: the drain does nothing.
    Skip,
    /// Packets are read.  With `restart`, the reader woke from sleep with
    /// nothing changed meanwhile: its pending samples are dropped and its
    /// timeline starts at `now`.  With `fault`, the oldest packet waited too
    /// long and a fault is raised first.
    Read { restart: bool, fault: bool },
}

/// The reader's timeline: the cursor, in nanoseconds, up to which audio
/// was handed on; whether the next packet sets the cursor; and whether the
/// reader went to sleep since the last drain.
#[derive(Debug, Clone, Copy, PartialEq, Eq)]
pub struct ReaderClock {
    pub cursor: u64,
    pub align_next_packet: bool,
    pub dormant: bool,
}

impl ReaderClock {
    /// Opens a drain at `now`.  `same_fault` and `same_format` tell whether
    /// the fault count and the format are still those the reader knew;
    /// `head` is the end and the epoch match of the oldest waiting packet.
    pub fn open_drain(
        &mut self,
        ingest: IngestState,
        same_fault: bool,
        same_format: bool,
        head: Option<(u64, bool)>,
        now: u64,
    ) -> (r: DrainOpening)
        ensures
            ingest != IngestState::Active ==> r == DrainOpening::Skip && *final(self) == *old(self),
            ingest == IngestState::Active ==> {
                let restart = old(self).dormant && same_fault && same_format;
                &&& r == DrainOpening::Read {
                    restart,
                    fault: head matches Some((end, same_epoch)) && same_epoch && now - end
                        > MAX_BACKLOG_NS,
                }
                &&& !final(self).dormant
                &&& final(self).cursor == (if restart {
                    now
                } else {
                    old(self).cursor
                })
                &&& final(self).align_next_packet == (restart || old(self).align_next_packet)
            },
    {
        if ingest != IngestState::Active {
            return DrainOpening::Skip;
        }
        let restart = self.dormant && same_fault && same_format;
        self.dormant = false;
        if restart {
            self.cursor = now;
            self.align_next_packet = true;
        }
        let fault = match head {
            Some((end, same_epoch)) => backlog_fault(now, end, same_epoch),
            None => false,
        };
        DrainOpening::Read { restart, fault }
    }

    /// Takes in a packet that covers `start..end` with `frames` frames: the
    /// frames of silence before it and the frames of it to skip, as
    /// `packet_alignment` finds them.  The cursor moves past the packet, and
    /// the packet after it no longer sets the cursor.
    pub fn accept_packet(&mut self, start: u64, end: u64, frames: u64, rate: u64) -> (r: (u64, u64))
        requires
            start <= end,
        ensures
            ({
                let a = packet_alignment_spec(
                    old(self).cursor,
                    old(self).align_next_packet,
                    start,
                    end,
                    frames,
                    rate,
                );
                &&& r == (a.0, a.1)
                &&& final(self).cursor == a.2
            }),
            !final(self).align_next_packet,
            final(self).dormant == old(self).dormant,
    {
        let (gap, skip, next) = packet_alignment(self.cursor, self.align_next_packet, start, end, frames, rate);
        self.cursor = next;
        self.align_next_packet = false;
        (gap, skip)
    }

    /// Closes a drain at `now`: the silence the idle reader owes, in
    /// frames, and whether the format is switched to first (when the format
    /// is known and the cursor lags the target).  A stopped stream, or owed
    /// silence, makes the next packet set the cursor.
    pub fn close_drain(&mut self, streaming: bool, known: bool, rate: u64, now: u64) -> (r: (bool, u64))
        requires
            rate > 0,
        ensures
            r.0 == (known && idle_target(now, streaming, rate) > old(self).cursor),
            r.1 == idle_silence_spec(old(self).cursor, now, streaming, known, rate).0,
            final(self).cursor == idle_silence_spec(old(self).cursor, now, streaming, known, rate).1,
            final(self).align_next_packet == (old(self).align_next_packet || !streaming || r.1 > 0),
            final(self).dormant == old(self).dormant,
    {
        if !streaming {
            self.align_next_packet = true;
        }
        let wait = if streaming {
            idle_watchdog_ns(rate)
        } else {
            0
        };
        let target = now.saturating_sub(wait);
        let switch = known && target > self.cursor;
        let (frames, cursor) = idle_silence(self.cursor, now, streaming, known, rate);
        self.cursor = cursor;
        if frames > 0 {
            self.align_next_packet = true;
        }
        (switch, frames)
    }
}

/// A retry delay: the current one is used, and the next one doubles up to
/// `maximum`.
pub fn take_retry_delay(delay: &mut u64, maximum: u64) -> (r: u64)
    ensures
        r == *old(delay),
        *final(delay) == next_retry_delay(*old(delay), maximum),
{
    let current = *delay;
    *delay = if current > maximum / 2 {
        if current as u128 * 2 > maximum as u128 {
            maximum
        } else {
            current * 2
        }
    } else {
        current * 2
    };
    current
}

/// The longest wait between attempts to recreate a lost resource, in
/// nanoseconds.
pub const RESOURCE_RETRY_MAX_NS: u64 = 30_000_000_000;

/// When to retry, `now` plus the current delay; the delay doubles for next
/// time, up to the resource retry maximum.
pub fn retry_deadline(now: u64, delay: &mut u64) -> (r: u64)
    requires
        now + *old(delay) <= u64::MAX,
    ensures
        r == now + *old(delay),
        *final(delay) == next_retry_delay(*old(delay), RESOURCE_RETRY_MAX_NS),
{
    now + take_retry_delay(delay, RESOURCE_RETRY_MAX_NS)
}

/// Schedules a retry unless one is due later than `now`; returns whether
/// it scheduled one.
pub fn defer_retry(at: &mut Option<u64>, delay: &mut u64, now: u64) -> (r: bool)
    requires
        now + *old(delay) <= u64::MAX,
    ensures
        r == !(*old(at) matches Some(deadline) && deadline > now),
        r ==> *final(at) == Some((now + *old(delay)) as u64) && *final(delay) == next_retry_delay(
            *old(delay),
            RESOURCE_RETRY_MAX_NS,
        ),
        !r ==> *final(at) == *old(at) && *final(delay) == *old(delay),
{
    match *at {
        Some(deadline) => if deadline > now {
            return false;
        },
        None => {},
    }
    let mut current = *delay;
    let deadline = retry_deadline(now, &mut current);
    *at = Some(deadline);
    *delay = current;
    true
}

/// Turning frames into nanoseconds and back never gains a frame, whether
/// the way back rounds down or up.
pub proof fn law_frames_round_trip(frames: u64, rate: u64)
    requires
        rate > 0,
    ensures
        scale_spec(scale_spec(frames, NANOS_PER_SECOND, rate), rate, NANOS_PER_SECOND) <= frames,
        ns_frames_ceil_spec(scale_spec(frames, NANOS_PER_SECOND, rate), rate) <= frames,
{
    let f = frames as int;
    let r = rate as int;
    let exact = f * 1_000_000_000 / r;
    assert(exact * r <= f * 1_000_000_000) by (nonlinear_arith)
        requires
            r > 0,
            f >= 0,
            exact == f * 1_000_000_000 / r,
    ;
    assert(exact >= 0) by (nonlinear_arith)
        requires
            r > 0,
            f >= 0,
            exact == f * 1_000_000_000 / r,
    ;
    let ns = scale_spec(frames, NANOS_PER_SECOND, rate) as int;
    assert(ns <= exact);
    assert(ns * r <= f * 1_000_000_000) by (nonlinear_arith)
        requires
            r > 0,
            0 <= ns <= exact,
            exact * r <= f * 1_000_000_000,
    ;
    assert(ns * r / 1_000_000_000 <= f) by (nonlinear_arith)
        requires
            ns >= 0,
            r > 0,
            f >= 0,
            ns * r <= f * 1_000_000_000,
    ;
    assert((ns * r + 999_999_999) / 1_000_000_000 <= f) by (nonlinear_arith)
        requires
            ns >= 0,
            r > 0,
            f >= 0,
            ns * r <= f * 1_000_000_000,
    ;
}

/// A ring-buffer chunk is read in whole frames: the two windows lie in the
/// buffer without overlapping, the first from the chunk's offset on, and
/// together they hold a positive multiple of the frame size that is no
/// more than the chunk's size nor the buffer's.
pub proof fn law_pcm_chunk_whole_frames(max: usize, offset: u32, size: u32, frame_bytes: usize)
    ensures
        pcm_chunk_spec(max, offset, size, frame_bytes) matches Some((s0, e0, s1, e1)) ==> {
            let len = (e0 - s0) + (e1 - s1);
            &&& s0 == (offset as int) % (max as int)
            &&& 0 <= s0 <= e0 <= max
            &&& s1 == 0 && 0 <= e1 <= s0
            &&& len > 0 && len % (frame_bytes as int) == 0
            &&& len <= size && len <= max
        },
{
    if max > 0 && frame_bytes > 0 {
        let bounded = if (size as int) < (max as int) {
            size as int
        } else {
            max as int
        };
        let fb = frame_bytes as int;
        let len = bounded / fb * fb;
        assert(len <= bounded && len >= 0 && len % fb == 0) by (nonlinear_arith)
            requires
                fb > 0,
                bounded >= 0,
                len == bounded / fb * fb,
        ;
    }
}

/// A buffer chunk is read in whole frames: from the chunk's offset on, no
/// further than the buffer or the chunk reaches, a positive multiple of
/// the frame size.
pub proof fn law_audio_chunk_whole_frames(available: int, offset: u32, size: u32, frame_bytes: usize)
    ensures
        audio_chunk_spec(available, offset, size, frame_bytes) matches Some((start, end)) ==> {
            &&& start == offset
            &&& end <= available
            &&& end - start <= size
            &&& end - start > 0
            &&& frame_bytes > 0 ==> (end - start) % (frame_bytes as int) == 0
        },
{
    let frame = if frame_bytes == 0 {
        1
    } else {
        frame_bytes as int
    };
    let start = offset as int;
    let reach = if start + size > usize::MAX {
        usize::MAX as int
    } else {
        start + size
    };
    let end = if reach < available {
        reach
    } else {
        available
    };
    if end >= start {
        let d = end - start;
        let len = d / frame * frame;
        assert(len <= d && len % frame == 0) by (nonlinear_arith)
            requires
                frame > 0,
                d >= 0,
                len == d / frame * frame,
        ;
    }
}

/// The retry delay never grows past its maximum, and, while it is within
/// it, never shrinks.
pub proof fn law_retry_delay_capped(delay: u64, maximum: u64)
    ensures
        next_retry_delay(delay, maximum) <= maximum,
        delay <= maximum ==> delay <= next_retry_delay(delay, maximum),
{
}

/// A packet's span is never empty short of the end of time, and a packet
/// that continues a running span starts where that span ended.
pub proof fn law_packet_span_follows(previous: (u64, u64), now: u64, frames: u64, rate: u64)
    ensures
        ({
            let (start, end) = packet_span_spec(previous, now, frames, rate);
            &&& start <= end
            &&& start < end || end == u64::MAX
            &&& span_continues(previous.0, previous.1, now, idle_watchdog_spec(rate)) ==> start
                == previous.1
        }),
{
}

/// Meeting a packet never moves the reader's cursor back nor before the
/// packet's end, never skips more frames than the packet holds, and a
/// realigned reader neither pads nor skips.
pub proof fn law_packet_alignment(cursor: u64, realign: bool, start: u64, end: u64, frames: u64, rate: u64)
    requires
        start <= end,
    ensures
        ({
            let (gap, skip, next) = packet_alignment_spec(cursor, realign, start, end, frames, rate);
            &&& skip <= frames
            &&& next >= end
            &&& !realign ==> next >= cursor
            &&& realign ==> gap == 0 && skip == 0
        }),
{
}

/// An idle reader's silence never runs past the time it is owed up to,
/// and never moves the cursor back.
pub proof fn law_idle_silence_bounded(cursor: u64, now: u64, streaming: bool, rate: u64)
    requires
        rate > 0,
    ensures
        ({
            let target = now.saturating_sub(
                if streaming {
                    idle_watchdog_spec(rate)
                } else {
                    0
                },
            );
            let (frames, next) = idle_silence_spec(cursor, now, streaming, true, rate);
            &&& next >= cursor
            &&& frames > 0 ==> next <= target
        }),
{
    let target = now.saturating_sub(
        if streaming {
            idle_watchdog_spec(rate)
        } else {
            0
        },
    );
    if target > cursor {
        let d = (target - cursor) as u64;
        let f = scale_spec(d, rate, NANOS_PER_SECOND);
        if f > 0 {
            let di = d as int;
            let r = rate as int;
            let fi = di * r / 1_000_000_000;
            assert(fi * 1_000_000_000 <= di * r) by (nonlinear_arith)
                requires
                    di >= 0,
                    r > 0,
                    fi == di * r / 1_000_000_000,
            ;
            assert(fi >= 0) by (nonlinear_arith)
                requires
                    di >= 0,
                    r > 0,
                    fi == di * r / 1_000_000_000,
            ;
            assert(f as int <= fi);
            let back = (f as int) * 1_000_000_000 / r;
            assert(back <= di) by (nonlinear_arith)
                requires
                    r > 0,
                    0 <= f <= fi,
                    fi * 1_000_000_000 <= di * r,
                    back == (f as int) * 1_000_000_000 / r,
            ;
        }
    }
}

} // verus!
