//! The virtual sink's side of capture: the sample formats it accepts, the
//! stream format it negotiated, and the bounded packet queue and buffer
//! pool between its PipeWire thread and the meter tap.
use vstd::arithmetic::power2::pow2;
use std::collections::VecDeque;
use vstd::prelude::*;

verus! {

/// Packets the capture queue holds at most.
pub const CAPTURE_BUFFER_CAPACITY: usize = 64;

/// Samples each pooled buffer holds at first.
pub const CAPTURE_POOL_INITIAL_SAMPLES: usize = 4_096;

/// Samples a pooled buffer may hold at most.
pub const CAPTURE_POOL_MAX_SAMPLES: usize = 65_536;

/// Pooled buffers beyond the queue's capacity.
pub const CAPTURE_POOL_SPARE_BUFFERS: usize = 8;

/// The rate the virtual sink asks for.
pub const VIRTUAL_SINK_SAMPLE_RATE: u32 = 48_000;

/// The sample formats a PipeWire stream may negotiate.
#[derive(Debug, Clone, Copy, PartialEq, Eq, Structural)]
pub enum SampleFormat {
    F32LE,
    F32BE,
    S24_32LE,
    S24_32BE,
    S32LE,
    S32BE,
    U32LE,
    U32BE,
    F64LE,
    F64BE,
    S16LE,
    S16BE,
    U16LE,
    U16BE,
    S8,
    U8,
    /// Any other format.
    Other,
}

/// The bytes of one sample of `format`, when it is one the sink reads.
pub open spec fn sample_bytes_spec(format: SampleFormat) -> Option<usize> {
    match format {
        SampleFormat::F32LE | SampleFormat::F32BE | SampleFormat::S24_32LE
        | SampleFormat::S24_32BE | SampleFormat::S32LE | SampleFormat::S32BE
        | SampleFormat::U32LE | SampleFormat::U32BE => Some(4),
        SampleFormat::F64LE | SampleFormat::F64BE => Some(8),
        SampleFormat::S16LE | SampleFormat::S16BE | SampleFormat::U16LE | SampleFormat::U16BE => Some(2),
        SampleFormat::S8 | SampleFormat::U8 => Some(1),
        SampleFormat::Other => None,
    }
}

/// The bytes of one sample of `format`.
pub fn bytes_per_sample(format: SampleFormat) -> (r: Option<usize>)
    ensures
        r == sample_bytes_spec(format),
{
    match format {
        SampleFormat::F32LE | SampleFormat::F32BE | SampleFormat::S24_32LE
        | SampleFormat::S24_32BE | SampleFormat::S32LE | SampleFormat::S32BE
        | SampleFormat::U32LE | SampleFormat::U32BE => Some(4),
        SampleFormat::F64LE | SampleFormat::F64BE => Some(8),
        SampleFormat::S16LE | SampleFormat::S16BE | SampleFormat::U16LE | SampleFormat::U16BE => Some(2),
        SampleFormat::S8 | SampleFormat::U8 => Some(1),
        SampleFormat::Other => None,
    }
}

/// The samples in `len` bytes of `format`: none for a format the sink does
/// not read or a length that is not a whole number of samples.
pub fn converted_sample_count(len: usize, format: SampleFormat) -> (r: Option<usize>)
    ensures
        r == match sample_bytes_spec(format) {
            Some(b) => if len % b == 0 {
                Some((len / b) as usize)
            } else {
                None
            },
            None => None,
        },
{
    match bytes_per_sample(format) {
        Some(b) => if len % b == 0 {
            Some(len / b)
        } else {
            None
        },
        None => None,
    }
}

/// The stream format that the virtual sink negotiated.
#[derive(Debug, Clone, Copy, PartialEq, Eq)]
pub struct VirtualSinkState {
    pub frame_bytes: usize,
    pub channels: u32,
    pub sample_rate: u32,
    pub format: SampleFormat,
}

impl Default for VirtualSinkState {
    /// Stereo 32-bit float at the sink's rate, until PipeWire says more.
    fn default() -> (r: VirtualSinkState)
        ensures
            r.frame_bytes == 8,
            r.channels == 2,
            r.sample_rate == VIRTUAL_SINK_SAMPLE_RATE,
            r.format == SampleFormat::F32LE,
    {
        VirtualSinkState {
            frame_bytes: 8,
            channels: 2,
            sample_rate: VIRTUAL_SINK_SAMPLE_RATE,
            format: SampleFormat::F32LE,
        }
    }
}

impl VirtualSinkState {
    /// Takes the negotiated format: at least one channel, the rate and the
    /// sample format; the frame size follows unless the format is one the
    /// sink does not read, which keeps the frame size it had.
    pub fn update_from_info(&mut self, channels: u32, rate: u32, format: SampleFormat)
        requires
            (channels as int) * 8 <= usize::MAX,
        ensures
            final(self).channels == if channels > 0 {
                channels
            } else {
                1
            },
            final(self).sample_rate == rate,
            final(self).format == format,
            final(self).frame_bytes == match sample_bytes_spec(format) {
                Some(b) => (final(self).channels * b) as usize,
                None => old(self).frame_bytes,
            },
    {
        self.channels = if channels > 0 {
            channels
        } else {
            1
        };
        self.sample_rate = rate;
        self.format = format;
        match bytes_per_sample(format) {
            Some(b) => {
                proof {
                    assert((self.channels as int) * (b as int) <= (self.channels as int) * 8)
                        by (nonlinear_arith)
                        requires
                            b <= 8,
                            self.channels >= 0,
                    ;
                }
                self.frame_bytes = self.channels as usize * b;
            },
            None => {},
        }
    }
}

/// Whether a packet of `needed` samples may take a pooled buffer: at
/// least one sample, and no more than a pooled buffer may hold.
pub fn acquirable(needed: usize) -> (r: bool)
    ensures
        r == (1 <= needed && needed <= CAPTURE_POOL_MAX_SAMPLES),
{
    1 <= needed && needed <= CAPTURE_POOL_MAX_SAMPLES
}

/// Whether a buffer of `capacity` samples goes back to a pool of `pooled`
/// buffers that keeps `pool_capacity`: only when it is not oversized and
/// the pool has room.
pub fn keeps_recycled(capacity: usize, pooled: usize, pool_capacity: usize) -> (r: bool)
    ensures
        r == (capacity <= CAPTURE_POOL_MAX_SAMPLES && pooled < pool_capacity),
{
    capacity <= CAPTURE_POOL_MAX_SAMPLES && pooled < pool_capacity
}

/// The buffers that a queue of `capacity` packets pools: one per packet
/// and some spare, counted up to `usize::MAX`.
pub fn pool_capacity(capacity: usize) -> (r: usize)
    ensures
        r == if capacity + CAPTURE_POOL_SPARE_BUFFERS > usize::MAX {
            usize::MAX
        } else {
            (capacity + CAPTURE_POOL_SPARE_BUFFERS) as usize
        },
{
    capacity.saturating_add(CAPTURE_POOL_SPARE_BUFFERS)
}

/// `p` is the least power of two that is at least `n`.
pub open spec fn least_power_of_two_at_least(n: nat, p: nat) -> bool {
    exists|k: nat| #[trigger] pow2(k) == p && p >= n && (k == 0 || pow2((k - 1) as nat) < n)
}

/// The sample size the pool grows its buffers to after packets of up to
/// `requested` samples found none large enough: the next power of two,
/// between the initial and the largest buffer size; none when nothing was
/// requested.
pub fn requested_pool_capacity(requested: usize) -> (r: Option<usize>)
    ensures
        requested == 0 ==> r is None,
        requested > CAPTURE_POOL_MAX_SAMPLES ==> r == Some(CAPTURE_POOL_MAX_SAMPLES),
        0 < requested <= CAPTURE_POOL_MAX_SAMPLES ==> r is Some && exists|p: nat|
            least_power_of_two_at_least(requested as nat, p) && r->0 == if p
                < CAPTURE_POOL_INITIAL_SAMPLES {
                CAPTURE_POOL_INITIAL_SAMPLES as nat
            } else {
                p
            },
{
    if requested == 0 {
        return None;
    }
    if requested > CAPTURE_POOL_MAX_SAMPLES {
        return Some(CAPTURE_POOL_MAX_SAMPLES);
    }
    let mut p: usize = 1;
    let ghost mut k: nat = 0;
    proof {
        vstd::arithmetic::power2::lemma2_to64();
    }
    while p < requested
        invariant
            p == pow2(k),
            k <= 16,
            k == 0 || pow2((k - 1) as nat) < requested,
            requested <= CAPTURE_POOL_MAX_SAMPLES,
            0 < requested,
        decreases CAPTURE_POOL_MAX_SAMPLES - p,
    {
        proof {
            vstd::arithmetic::power2::lemma2_to64();
            vstd::arithmetic::power2::lemma_pow2_unfold(k + 1);
            if k == 16 {
                assert(p == 65536);
            }
        }
        p = p * 2;
        proof {
            k = k + 1;
        }
    }
    proof {
        assert(pow2(k) == p);
        assert(least_power_of_two_at_least(requested as nat, p as nat));
    }
    if p < CAPTURE_POOL_INITIAL_SAMPLES {
        Some(CAPTURE_POOL_INITIAL_SAMPLES)
    } else {
        Some(p)
    }
}

/// The packets waiting between the virtual sink and the meter tap; when
/// full, the oldest packet makes room for a new one.
pub struct PacketQueue<T> {
    pub items: VecDeque<T>,
    pub capacity: usize,
}

impl<T> PacketQueue<T> {
    /// An empty queue of `capacity` packets.
    pub fn new(capacity: usize) -> (r: PacketQueue<T>)
        ensures
            r.items@.len() == 0,
            r.capacity == capacity,
    {
        PacketQueue { items: VecDeque::with_capacity(capacity), capacity }
    }

    /// Adds `item` at the back.  A full queue first gives up its oldest
    /// packet, which is returned, and the push counts as a dropped frame.
    pub fn push(&mut self, item: T) -> (r: (Option<T>, bool))
        ensures
            final(self).capacity == old(self).capacity,
            old(self).items@.len() >= old(self).capacity ==> {
                &&& r.1
                &&& old(self).items@.len() > 0 ==> r.0 == Some(old(self).items@[0])
                    && final(self).items@ == old(self).items@.drop_first().push(item)
                &&& old(self).items@.len() == 0 ==> r.0 is None && final(self).items@ == seq![
                    item,
                ]
            },
            old(self).items@.len() < old(self).capacity ==> !r.1 && r.0 is None
                && final(self).items@ == old(self).items@.push(item),
    {
        let full = self.items.len() >= self.capacity;
        let evicted = if full {
            self.items.pop_front()
        } else {
            None
        };
        self.items.push_back(item);
        proof {
            if full && old(self).items@.len() == 0 {
                assert(self.items@ =~= seq![item]);
            }
        }
        (evicted, full)
    }

    /// Takes the oldest packet.
    pub fn pop(&mut self) -> (r: Option<T>)
        ensures
            final(self).capacity == old(self).capacity,
            old(self).items@.len() > 0 ==> r == Some(old(self).items@[0]) && final(self).items@
                == old(self).items@.drop_first(),
            old(self).items@.len() == 0 ==> r is None && final(self).items@.len() == 0,
    {
        self.items.pop_front()
    }

    /// Whether no packet waits.
    pub fn is_empty(&self) -> (r: bool)
        ensures
            r == (self.items@.len() == 0),
    {
        self.items.len() == 0
    }
}

/// A queue that is not over its capacity stays so, and every packet that
/// leaves it leaves in the order it came.
pub proof fn law_queue_stays_bounded<T>(items: Seq<T>, capacity: usize, item: T)
    requires
        capacity > 0,
        items.len() <= capacity,
    ensures
        ({
            let after = if items.len() >= capacity {
                items.drop_first().push(item)
            } else {
                items.push(item)
            };
            &&& after.len() <= capacity
            &&& after.last() == item
            &&& forall|i: int| 0 <= i < after.len() - 1 ==> after[i] == items[i + (items.len()
                + 1 - after.len())]
        }),
{
}

} // verus!
