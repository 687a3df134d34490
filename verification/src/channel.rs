//! Speaker positions of capture channels and their normalisation.
use crate::text::{
    chars_eq_fold, chars_from, chars_of, eq_fold, parse_u8, parse_u8_spec, trim, trim_chars,
};
use vstd::prelude::*;

verus! {

/// Largest number of channels that one capture carries.
pub const MAX_AUDIO_CHANNELS: usize = 8;

/// The speaker role of one audio channel.
#[derive(Debug, Clone, Copy, PartialEq, Eq, Structural, Hash, Default)]
pub enum ChannelPosition {
    FrontLeft,
    FrontRight,
    FrontCenter,
    LowFrequency,
    RearLeft,
    RearRight,
    SideLeft,
    SideRight,
    Mono,
    Aux(u8),
    #[default]
    Unknown,
}

/// A full set of positions, one per capture channel.
pub type Layout = [ChannelPosition; 8];

/// The 7.1 layout that the shared capture bus uses.
pub open spec fn surround_spec() -> Seq<ChannelPosition> {
    seq![
        ChannelPosition::FrontLeft,
        ChannelPosition::FrontRight,
        ChannelPosition::FrontCenter,
        ChannelPosition::LowFrequency,
        ChannelPosition::RearLeft,
        ChannelPosition::RearRight,
        ChannelPosition::SideLeft,
        ChannelPosition::SideRight,
    ]
}

/// The number of channels that a layout of `channels` keeps.
pub open spec fn clamp_channels(channels: int) -> int {
    if channels < 8 {
        channels
    } else {
        8
    }
}

/// The conventional layout for `channels` channels: the first positions
/// of the 7.1 bus, a mono channel for one channel, and rear pairs in the
/// quadraphonic and 5.0 layouts.
pub open spec fn fallback_spec(channels: int) -> Seq<ChannelPosition> {
    let n = clamp_channels(channels);
    let base = Seq::new(
        8,
        |i: int|
            if i < n {
                surround_spec()[i]
            } else {
                ChannelPosition::Unknown
            },
    );
    if n == 1 {
        base.update(0, ChannelPosition::Mono)
    } else if n == 4 {
        base.update(2, ChannelPosition::RearLeft).update(3, ChannelPosition::RearRight)
    } else if n == 5 {
        base.update(3, ChannelPosition::RearLeft).update(4, ChannelPosition::RearRight)
    } else {
        base
    }
}

/// `p[..n]` contains `c`.
pub open spec fn prefix_contains(p: Seq<ChannelPosition>, n: int, c: ChannelPosition) -> bool {
    exists|j: int| 0 <= j < n && p[j] == c
}

/// First pass of normalisation: positions at or beyond `channels` and
/// repeats of an earlier position become `Unknown`.  This is the state
/// after the first `i` channels were examined.
pub open spec fn dedup_upto(p: Seq<ChannelPosition>, i: int) -> Seq<ChannelPosition>
    decreases i,
{
    if i <= 0 {
        p
    } else {
        let q = dedup_upto(p, i - 1);
        if prefix_contains(q, i - 1, q[i - 1]) {
            q.update(i - 1, ChannelPosition::Unknown)
        } else {
            q
        }
    }
}

/// The first candidate of `cands` from index `k` on that is a known
/// position and unused in `p[..n]`.
pub open spec fn first_free(
    p: Seq<ChannelPosition>,
    n: int,
    cands: Seq<ChannelPosition>,
    k: int,
) -> Option<ChannelPosition>
    decreases cands.len() - k,
{
    if k < 0 || k >= cands.len() {
        None
    } else if cands[k] != ChannelPosition::Unknown && !prefix_contains(p, n, cands[k]) {
        Some(cands[k])
    } else {
        first_free(p, n, cands, k + 1)
    }
}

/// The candidates for channel `index`: its own conventional position
/// first, then every conventional position in order.
pub open spec fn candidates(fb: Seq<ChannelPosition>, index: int) -> Seq<ChannelPosition> {
    seq![fb[index]] + fb
}

/// Second pass of normalisation: every `Unknown` channel below `n` takes
/// the first free candidate.  This is the state after `i` channels.
pub open spec fn fill_upto(p: Seq<ChannelPosition>, n: int, i: int) -> Seq<ChannelPosition>
    decreases i,
{
    if i <= 0 {
        p
    } else {
        let q = fill_upto(p, n, i - 1);
        if q[i - 1] != ChannelPosition::Unknown {
            q
        } else {
            match first_free(q, n, candidates(fallback_spec(n), i - 1), 0) {
                Some(c) => q.update(i - 1, c),
                None => q,
            }
        }
    }
}

/// `positions` with everything at or beyond `n` cleared.
pub open spec fn clear_from(p: Seq<ChannelPosition>, n: int) -> Seq<ChannelPosition> {
    Seq::new(
        p.len(),
        |i: int|
            if i < n {
                p[i]
            } else {
                ChannelPosition::Unknown
            },
    )
}

/// The normalised layout of `channels` channels given reported `positions`.
pub open spec fn normalize_spec(channels: int, positions: Seq<ChannelPosition>) -> Seq<
    ChannelPosition,
> {
    let n = clamp_channels(channels);
    fill_upto(dedup_upto(clear_from(positions, n), n), n, n)
}

/// A layout is sound for `n` channels when its first `n` positions are
/// known and pairwise different and the rest are `Unknown`.
pub open spec fn sound_layout(p: Seq<ChannelPosition>, n: int) -> bool {
    &&& p.len() == 8
    &&& forall|i: int| 0 <= i < n ==> p[i] != ChannelPosition::Unknown
    &&& forall|i: int| n <= i < 8 ==> p[i] == ChannelPosition::Unknown
    &&& forall|i: int, j: int| 0 <= i < j < n ==> p[i] != p[j]
}

/// Channel `i` reported a known position that no earlier channel took.
pub open spec fn kept_position(positions: Seq<ChannelPosition>, i: int) -> bool {
    &&& positions[i] != ChannelPosition::Unknown
    &&& !prefix_contains(positions, i, positions[i])
}

impl ChannelPosition {
    /// The 7.1 bus layout: FL, FR, FC, LFE, RL, RR, SL, SR.
    pub fn surround() -> (r: Layout)
        ensures
            r@ == surround_spec(),
    {
        let r = [
            ChannelPosition::FrontLeft,
            ChannelPosition::FrontRight,
            ChannelPosition::FrontCenter,
            ChannelPosition::LowFrequency,
            ChannelPosition::RearLeft,
            ChannelPosition::RearRight,
            ChannelPosition::SideLeft,
            ChannelPosition::SideRight,
        ];
        assert(r@ =~= surround_spec());
        r
    }

    /// The conventional layout for `channels` channels.
    pub fn fallback(channels: usize) -> (r: Layout)
        ensures
            r@ == fallback_spec(channels as int),
    {
        let n: usize = if channels < 8 {
            channels
        } else {
            8
        };
        let surround = Self::surround();
        let mut positions = [ChannelPosition::Unknown;8];
        let mut i: usize = 0;
        while i < n
            invariant
                n == clamp_channels(channels as int),
                i <= n,
                surround@ == surround_spec(),
                positions@.len() == 8,
                forall|k: int|
                    0 <= k < 8 ==> #[trigger] positions@[k] == if k < i {
                        surround_spec()[k]
                    } else {
                        ChannelPosition::Unknown
                    },
            decreases n - i,
        {
            positions[i] = surround[i];
            i += 1;
        }
        if n == 1 {
            positions[0] = ChannelPosition::Mono;
        } else if n == 4 {
            positions[2] = ChannelPosition::RearLeft;
            positions[3] = ChannelPosition::RearRight;
        } else if n == 5 {
            positions[3] = ChannelPosition::RearLeft;
            positions[4] = ChannelPosition::RearRight;
        }
        assert(positions@ =~= fallback_spec(channels as int));
        positions
    }
}

/// Whether `p[..n]` contains `c`.
fn layout_prefix_contains(p: &Layout, n: usize, c: ChannelPosition) -> (r: bool)
    requires
        n <= 8,
    ensures
        r == prefix_contains(p@, n as int, c),
{
    let mut k: usize = 0;
    while k < n
        invariant
            n <= 8,
            k <= n,
            forall|j: int| 0 <= j < k ==> p@[j] != c,
        decreases n - k,
    {
        if p[k] == c {
            return true;
        }
        k += 1;
    }
    false
}

/// The first candidate from `k` on that is known and unused in `p[..n]`.
fn find_free(p: &Layout, n: usize, cands: &Vec<ChannelPosition>) -> (r: Option<ChannelPosition>)
    requires
        n <= 8,
    ensures
        r == first_free(p@, n as int, cands@, 0),
{
    let mut k: usize = 0;
    while k < cands.len()
        invariant
            n <= 8,
            k <= cands@.len(),
            first_free(p@, n as int, cands@, 0) == first_free(p@, n as int, cands@, k as int),
        decreases cands@.len() - k,
    {
        let c = cands[k];
        if c != ChannelPosition::Unknown && !layout_prefix_contains(p, n, c) {
            return Some(c);
        }
        k += 1;
    }
    None
}

impl ChannelPosition {
    /// Normalises the reported positions of `channels` channels: channels
    /// beyond the capture are cleared, repeated positions are dropped, and
    /// every channel left without a position takes the first free one of
    /// its conventional layout.
    pub fn normalize(channels: usize, positions: Layout) -> (r: Layout)
        ensures
            r@ == normalize_spec(channels as int, positions@),
            sound_layout(r@, clamp_channels(channels as int)),
            forall|i: int|
                0 <= i < clamp_channels(channels as int) && kept_position(positions@, i) ==> r@[i]
                    == positions@[i],
    {
        proof {
            lemma_normalize_sound(channels as int, positions@);
        }
        let n: usize = if channels < 8 {
            channels
        } else {
            8
        };
        let mut p = positions;
        let mut i: usize = n;
        while i < 8
            invariant
                n <= i <= 8,
                p@.len() == 8,
                forall|k: int|
                    0 <= k < 8 ==> #[trigger] p@[k] == if k < n || k >= i {
                        positions@[k]
                    } else {
                        ChannelPosition::Unknown
                    },
            decreases 8 - i,
        {
            p[i] = ChannelPosition::Unknown;
            i += 1;
        }
        let ghost cleared = clear_from(positions@, n as int);
        assert(p@ =~= cleared);
        let mut index: usize = 0;
        while index < n
            invariant
                n <= 8,
                index <= n,
                p@ == dedup_upto(cleared, index as int),
            decreases n - index,
        {
            let current = p[index];
            if layout_prefix_contains(&p, index, current) {
                p[index] = ChannelPosition::Unknown;
            }
            index += 1;
        }
        let ghost deduped = p@;
        let fallback = Self::fallback(n);
        let mut index: usize = 0;
        while index < n
            invariant
                n == clamp_channels(channels as int),
                index <= n,
                fallback@ == fallback_spec(n as int),
                p@.len() == 8,
                p@ == fill_upto(deduped, n as int, index as int),
                deduped == dedup_upto(cleared, n as int),
                cleared == clear_from(positions@, n as int),
            decreases n - index,
        {
            if p[index] == ChannelPosition::Unknown {
                let mut cands: Vec<ChannelPosition> = Vec::new();
                cands.push(fallback[index]);
                let mut k: usize = 0;
                while k < 8
                    invariant
                        k <= 8,
                        index < n,
                        cands@ == seq![fallback@[index as int]] + fallback@.take(k as int),
                    decreases 8 - k,
                {
                    cands.push(fallback[k]);
                    proof {
                        assert(fallback@.take(k + 1) =~= fallback@.take(k as int).push(fallback@[k as int]));
                    }
                    k += 1;
                }
                proof {
                    assert(fallback@.take(8) =~= fallback@);
                    assert(cands@ =~= candidates(fallback_spec(n as int), index as int));
                }
                match find_free(&p, n, &cands) {
                    Some(c) => {
                        p[index] = c;
                    },
                    None => {},
                }
            }
            index += 1;
        }
        p
    }
}

proof fn lemma_fallback_shape(n: int)
    requires
        0 <= n <= 8,
    ensures
        fallback_spec(n).len() == 8,
        forall|k: int| 0 <= k < n ==> fallback_spec(n)[k] != ChannelPosition::Unknown,
        forall|k: int| n <= k < 8 ==> fallback_spec(n)[k] == ChannelPosition::Unknown,
        forall|i: int, j: int| 0 <= i < j < n ==> fallback_spec(n)[i] != fallback_spec(n)[j],
{
    let fb = fallback_spec(n);
    assert(surround_spec().len() == 8);
    assert forall|k: int| 0 <= k < n implies fb[k] != ChannelPosition::Unknown by {
        if n != 1 && n != 4 && n != 5 {
            assert(fb[k] == surround_spec()[k]);
        }
    }
    assert forall|i: int, j: int| 0 <= i < j < n implies fb[i] != fb[j] by {
        let s = surround_spec();
        if n == 1 {
        } else if n == 4 {
        } else if n == 5 {
        } else {
            assert(fb[i] == s[i] && fb[j] == s[j]);
        }
    }
}

proof fn lemma_first_free_none(
    p: Seq<ChannelPosition>,
    n: int,
    cands: Seq<ChannelPosition>,
    k: int,
)
    requires
        0 <= k,
        first_free(p, n, cands, k) is None,
    ensures
        forall|m: int|
            k <= m < cands.len() ==> cands[m] == ChannelPosition::Unknown || prefix_contains(
                p,
                n,
                #[trigger] cands[m],
            ),
    decreases cands.len() - k,
{
    if k < cands.len() {
        lemma_first_free_none(p, n, cands, k + 1);
    }
}

proof fn lemma_first_free_some(
    p: Seq<ChannelPosition>,
    n: int,
    cands: Seq<ChannelPosition>,
    k: int,
)
    requires
        0 <= k,
        first_free(p, n, cands, k) is Some,
    ensures
        first_free(p, n, cands, k)->0 != ChannelPosition::Unknown,
        !prefix_contains(p, n, first_free(p, n, cands, k)->0),
    decreases cands.len() - k,
{
    if k < cands.len() && !(cands[k] != ChannelPosition::Unknown && !prefix_contains(
        p,
        n,
        cands[k],
    )) {
        lemma_first_free_some(p, n, cands, k + 1);
    }
}

/// A channel that is still `Unknown` always finds a free conventional
/// position: its layout has at most `n - 1` known positions while the
/// conventional layout offers `n` different ones.
proof fn lemma_free_candidate_exists(q: Seq<ChannelPosition>, n: int, i: int)
    requires
        1 <= n <= 8,
        q.len() == 8,
        0 <= i < n,
        q[i] == ChannelPosition::Unknown,
    ensures
        first_free(q, n, candidates(fallback_spec(n), i), 0) is Some,
{
    let fb = fallback_spec(n);
    lemma_fallback_shape(n);
    let cands = candidates(fb, i);
    if first_free(q, n, cands, 0) is None {
        lemma_first_free_none(q, n, cands, 0);
        let t = fb.take(n);
        let used = q.take(n);
        assert forall|a: int, b: int| 0 <= a < t.len() && 0 <= b < t.len() && a != b implies t[a]
            != t[b] by {
            if a < b {
                assert(fb[a] != fb[b]);
            } else {
                assert(fb[b] != fb[a]);
            }
        }
        assert(t.no_duplicates());
        t.unique_seq_to_set();
        used.lemma_cardinality_of_set();
        assert(used.to_set().contains(ChannelPosition::Unknown)) by {
            assert(used[i] == ChannelPosition::Unknown);
        }
        let known = used.to_set().remove(ChannelPosition::Unknown);
        assert forall|x: ChannelPosition| t.to_set().contains(x) implies known.contains(x) by {
            let k = choose|k: int| 0 <= k < t.len() && t[k] == x;
            assert(cands[k + 1] == fb[k]);
            assert(prefix_contains(q, n, cands[k + 1]));
            let j = choose|j: int| 0 <= j < n && q[j] == cands[k + 1];
            assert(used[j] == x);
        }
        vstd::set_lib::lemma_len_subset(t.to_set(), known);
        assert(false);
    }
}

/// Facts about the first pass: after examining `i` channels, every
/// examined channel keeps its position exactly when no earlier channel
/// reported it, and unexamined channels are untouched.
proof fn lemma_dedup(p: Seq<ChannelPosition>, i: int)
    requires
        0 <= i <= p.len(),
    ensures
        dedup_upto(p, i).len() == p.len(),
        forall|j: int| i <= j < p.len() ==> dedup_upto(p, i)[j] == p[j],
        forall|j: int|
            0 <= j < i ==> dedup_upto(p, i)[j] == if prefix_contains(p, j, p[j]) {
                ChannelPosition::Unknown
            } else {
                p[j]
            },
    decreases i,
{
    if i > 0 {
        lemma_dedup(p, i - 1);
        let q = dedup_upto(p, i - 1);
        let x = q[i - 1];
        assert(x == p[i - 1]);
        if prefix_contains(p, i - 1, x) && x != ChannelPosition::Unknown {
            lemma_first_occurrence(p, i - 1, x);
            let k = choose|k: int| 0 <= k < i - 1 && p[k] == x && !prefix_contains(p, k, x);
            assert(q[k] == x);
            assert(prefix_contains(q, i - 1, x));
        }
        if !prefix_contains(p, i - 1, x) && x != ChannelPosition::Unknown {
            if prefix_contains(q, i - 1, x) {
                let k = choose|k: int| 0 <= k < i - 1 && q[k] == x;
                assert(q[k] == p[k] || q[k] == ChannelPosition::Unknown);
                assert(p[k] == x);
                assert(false);
            }
        }
    }
}

proof fn lemma_first_occurrence(p: Seq<ChannelPosition>, m: int, x: ChannelPosition)
    requires
        0 <= m <= p.len(),
        prefix_contains(p, m, x),
    ensures
        exists|k: int| 0 <= k < m && p[k] == x && !prefix_contains(p, k, x),
    decreases m,
{
    if prefix_contains(p, m - 1, x) {
        lemma_first_occurrence(p, m - 1, x);
        let k = choose|k: int| 0 <= k < m - 1 && p[k] == x && !prefix_contains(p, k, x);
        assert(0 <= k < m && p[k] == x && !prefix_contains(p, k, x));
    } else {
        assert(p[m - 1] == x);
    }
}

/// Facts about the second pass over a deduplicated layout.
proof fn lemma_fill(d: Seq<ChannelPosition>, n: int, i: int)
    requires
        1 <= n <= 8,
        0 <= i <= n,
        d.len() == 8,
        forall|j: int| n <= j < 8 ==> d[j] == ChannelPosition::Unknown,
        forall|a: int, b: int|
            0 <= a < b < n && d[a] != ChannelPosition::Unknown ==> d[a] != d[b],
    ensures
        fill_upto(d, n, i).len() == 8,
        forall|j: int| i <= j < 8 ==> fill_upto(d, n, i)[j] == d[j],
        forall|j: int| 0 <= j < i ==> fill_upto(d, n, i)[j] != ChannelPosition::Unknown,
        forall|j: int|
            0 <= j < i && d[j] != ChannelPosition::Unknown ==> fill_upto(d, n, i)[j] == d[j],
        forall|a: int, b: int|
            0 <= a < b < n && fill_upto(d, n, i)[a] != ChannelPosition::Unknown ==> fill_upto(
                d,
                n,
                i,
            )[a] != fill_upto(d, n, i)[b],
    decreases i,
{
    if i > 0 {
        lemma_fill(d, n, i - 1);
        let q = fill_upto(d, n, i - 1);
        if q[i - 1] == ChannelPosition::Unknown {
            let cands = candidates(fallback_spec(n), i - 1);
            lemma_free_candidate_exists(q, n, i - 1);
            lemma_first_free_some(q, n, cands, 0);
            let c = first_free(q, n, cands, 0)->0;
            let r = q.update(i - 1, c);
            assert(r == fill_upto(d, n, i));
            assert forall|a: int, b: int|
                0 <= a < b < n && r[a] != ChannelPosition::Unknown implies r[a] != r[b] by {
                if a == i - 1 {
                    assert(q[b] == r[b]);
                    if r[a] == r[b] {
                        assert(prefix_contains(q, n, c));
                    }
                } else if b == i - 1 {
                    assert(q[a] == r[a]);
                    if r[a] == r[b] {
                        assert(prefix_contains(q, n, c));
                    }
                } else {
                    assert(q[a] == r[a] && q[b] == r[b]);
                }
            }
        }
    }
}

/// The normalised layout is sound, keeps every position that its channel
/// reported first, and takes the other positions from the conventional
/// layout.
pub proof fn lemma_normalize_sound(channels: int, positions: Seq<ChannelPosition>)
    requires
        positions.len() == 8,
        channels >= 0,
    ensures
        sound_layout(normalize_spec(channels, positions), clamp_channels(channels)),
        forall|i: int|
            0 <= i < clamp_channels(channels) && kept_position(positions, i) ==> normalize_spec(
                channels,
                positions,
            )[i] == positions[i],
{
    let n = clamp_channels(channels);
    let c = clear_from(positions, n);
    lemma_dedup(c, n);
    let d = dedup_upto(c, n);
    assert forall|a: int, b: int|
        0 <= a < b < n && d[a] != ChannelPosition::Unknown implies d[a] != d[b] by {
        if d[a] == d[b] {
            assert(d[a] == c[a]);
            assert(d[b] == c[b]);
            assert(prefix_contains(c, b, c[b]));
        }
    }
    if n >= 1 {
        lemma_fill(d, n, n);
    }
    let r = normalize_spec(channels, positions);
    assert(r == fill_upto(d, n, n));
    assert forall|i: int| n <= i < 8 implies r[i] == ChannelPosition::Unknown by {
        assert(d[i] == c[i]);
    }
    assert forall|i: int, j: int| 0 <= i < j < n implies r[i] != r[j] by {
        assert(r[i] != ChannelPosition::Unknown);
    }
    assert forall|i: int| 0 <= i < n && kept_position(positions, i) implies r[i] == positions[i] by {
        assert(c[i] == positions[i]);
        if prefix_contains(c, i, c[i]) {
            let k = choose|k: int| 0 <= k < i && c[k] == c[i];
            assert(c[k] == positions[k]);
            assert(prefix_contains(positions, i, positions[i]));
        }
        assert(d[i] == c[i]);
    }
    assert(sound_layout(r, n));
}

proof fn lemma_sound_dedup_fill(p: Seq<ChannelPosition>, n: int, i: int)
    requires
        0 <= n <= 8,
        0 <= i <= n,
        sound_layout(p, n),
    ensures
        dedup_upto(p, i) == p,
        fill_upto(p, n, i) == p,
    decreases i,
{
    if i > 0 {
        lemma_sound_dedup_fill(p, n, i - 1);
        if prefix_contains(p, i - 1, p[i - 1]) {
            let k = choose|k: int| 0 <= k < i - 1 && #[trigger] p[k] == p[i - 1];
            assert(p[k] != p[i - 1]);
        }
    }
}

/// The speaker position that a PipeWire `audio.channel` property names:
/// the short names are compared without ASCII case after trimming, and
/// `AUX<n>` names an auxiliary channel below the capture width.
pub open spec fn parse_position_spec(s: Seq<char>) -> Option<ChannelPosition> {
    let v = trim(s);
    if eq_fold(v, seq!['F', 'L']) {
        Some(ChannelPosition::FrontLeft)
    } else if eq_fold(v, seq!['F', 'R']) {
        Some(ChannelPosition::FrontRight)
    } else if eq_fold(v, seq!['F', 'C']) {
        Some(ChannelPosition::FrontCenter)
    } else if eq_fold(v, seq!['L', 'F', 'E']) {
        Some(ChannelPosition::LowFrequency)
    } else if eq_fold(v, seq!['R', 'L']) {
        Some(ChannelPosition::RearLeft)
    } else if eq_fold(v, seq!['R', 'R']) {
        Some(ChannelPosition::RearRight)
    } else if eq_fold(v, seq!['S', 'L']) {
        Some(ChannelPosition::SideLeft)
    } else if eq_fold(v, seq!['S', 'R']) {
        Some(ChannelPosition::SideRight)
    } else if eq_fold(v, seq!['M', 'O', 'N', 'O']) {
        Some(ChannelPosition::Mono)
    } else if v.len() >= 3 && eq_fold(v.take(3), seq!['A', 'U', 'X']) {
        match parse_u8_spec(v.skip(3)) {
            Some(k) => if k < 8 {
                Some(ChannelPosition::Aux(k))
            } else {
                None
            },
            None => None,
        }
    } else {
        None
    }
}

/// The first channel below `n` that carries `c`.
pub open spec fn find_position(p: Seq<ChannelPosition>, n: int, c: ChannelPosition) -> Option<int>
    decreases n,
{
    if n <= 0 {
        None
    } else {
        match find_position(p, n - 1, c) {
            Some(i) => Some(i),
            None => if p[n - 1] == c {
                Some(n - 1)
            } else {
                None
            },
        }
    }
}

/// The first channel below `n` other than `avoid`.
pub open spec fn first_other(n: int, avoid: Option<int>) -> Option<int> {
    if n > 0 && avoid != Some(0int) {
        Some(0int)
    } else if n > 1 {
        Some(1int)
    } else {
        None
    }
}

/// The channels that feed the left and right side of a stereo fold.
pub open spec fn stereo_indices_spec(n: int, p: Seq<ChannelPosition>) -> (int, int) {
    let explicit_right = find_position(p, n, ChannelPosition::FrontRight);
    let left = match find_position(p, n, ChannelPosition::FrontLeft) {
        Some(i) => i,
        None => match find_position(p, n, ChannelPosition::Mono) {
            Some(i) => i,
            None => match first_other(n, explicit_right) {
                Some(i) => i,
                None => 0,
            },
        },
    };
    let right = match explicit_right {
        Some(i) => if i != left {
            i
        } else {
            match first_other(n, Some(left)) {
                Some(j) => j,
                None => left,
            }
        },
        None => match first_other(n, Some(left)) {
            Some(j) => j,
            None => left,
        },
    };
    (left, right)
}

/// Rear channels of a layout without side channels take the side roles of
/// the 7.1 bus, where a 5.1 or quadraphonic source's surrounds belong.
pub open spec fn resolve_surrounds_spec(p: Seq<ChannelPosition>) -> Seq<ChannelPosition> {
    if p.contains(ChannelPosition::SideLeft) || p.contains(ChannelPosition::SideRight) {
        p
    } else {
        p.map_values(
            |c: ChannelPosition|
                if c == ChannelPosition::RearLeft {
                    ChannelPosition::SideLeft
                } else if c == ChannelPosition::RearRight {
                    ChannelPosition::SideRight
                } else {
                    c
                },
        )
    }
}

fn name_is(value: &[char], name: &[char]) -> (r: bool)
    ensures
        r == eq_fold(value@, name@),
{
    chars_eq_fold(value, name)
}

fn first_position(p: &Layout, n: usize, c: ChannelPosition) -> (r: Option<usize>)
    requires
        n <= 8,
    ensures
        r matches Some(i) ==> find_position(p@, n as int, c) == Some(i as int),
        r is None ==> find_position(p@, n as int, c) is None,
{
    let mut k: usize = 0;
    while k < n
        invariant
            n <= 8,
            k <= n,
            find_position(p@, k as int, c) is None,
        decreases n - k,
    {
        if p[k] == c {
            proof {
                lemma_find_position_extend(p@, (k + 1) as int, n as int, c);
            }
            return Some(k);
        }
        k += 1;
    }
    None
}

proof fn lemma_find_position_extend(p: Seq<ChannelPosition>, m: int, n: int, c: ChannelPosition)
    requires
        0 <= m <= n,
        find_position(p, m, c) is Some,
    ensures
        find_position(p, n, c) == find_position(p, m, c),
    decreases n - m,
{
    if m < n {
        lemma_find_position_extend(p, m, n - 1, c);
    }
}

fn first_other_exec(n: usize, avoid: Option<usize>) -> (r: Option<usize>)
    ensures
        r matches Some(i) ==> first_other(
            n as int,
            match avoid {
                Some(a) => Some(a as int),
                None => None,
            },
        ) == Some(i as int),
        r is None ==> first_other(
            n as int,
            match avoid {
                Some(a) => Some(a as int),
                None => None,
            },
        ) is None,
{
    if n > 0 && avoid != Some(0) {
        Some(0)
    } else if n > 1 {
        Some(1)
    } else {
        None
    }
}

impl ChannelPosition {
    /// Reads a PipeWire `audio.channel` property.
    pub fn parse(value: &str) -> (r: Option<ChannelPosition>)
        ensures
            r == parse_position_spec(value@),
    {
        let raw = chars_of(value);
        let v = trim_chars(raw.as_slice());
        let v = v.as_slice();
        if name_is(v, ['F', 'L'].as_slice()) {
            Some(ChannelPosition::FrontLeft)
        } else if name_is(v, ['F', 'R'].as_slice()) {
            Some(ChannelPosition::FrontRight)
        } else if name_is(v, ['F', 'C'].as_slice()) {
            Some(ChannelPosition::FrontCenter)
        } else if name_is(v, ['L', 'F', 'E'].as_slice()) {
            Some(ChannelPosition::LowFrequency)
        } else if name_is(v, ['R', 'L'].as_slice()) {
            Some(ChannelPosition::RearLeft)
        } else if name_is(v, ['R', 'R'].as_slice()) {
            Some(ChannelPosition::RearRight)
        } else if name_is(v, ['S', 'L'].as_slice()) {
            Some(ChannelPosition::SideLeft)
        } else if name_is(v, ['S', 'R'].as_slice()) {
            Some(ChannelPosition::SideRight)
        } else if name_is(v, ['M', 'O', 'N', 'O'].as_slice()) {
            Some(ChannelPosition::Mono)
        } else if v.len() >= 3 {
            let head = [v[0], v[1], v[2]];
            proof {
                assert(head@ =~= v@.take(3));
            }
            if name_is(head.as_slice(), ['A', 'U', 'X'].as_slice()) {
                let rest = chars_from(v, 3);
                proof {
                    assert(rest@ =~= v@.skip(3));
                }
                match parse_u8(rest.as_slice()) {
                    Some(k) => if k < 8 {
                        Some(ChannelPosition::Aux(k))
                    } else {
                        None
                    },
                    None => None,
                }
            } else {
                None
            }
        } else {
            None
        }
    }

    /// Rear channels take the side roles when the layout has no side
    /// channels.
    pub fn resolve_surrounds(positions: &mut Layout)
        ensures
            final(positions)@ == resolve_surrounds_spec(old(positions)@),
    {
        let ghost start = positions@;
        if layout_prefix_contains(positions, 8, ChannelPosition::SideLeft)
            || layout_prefix_contains(positions, 8, ChannelPosition::SideRight) {
            proof {
                if prefix_contains(start, 8, ChannelPosition::SideLeft) {
                    let j = choose|j: int| 0 <= j < 8 && start[j] == ChannelPosition::SideLeft;
                    assert(start.contains(ChannelPosition::SideLeft));
                } else {
                    let j = choose|j: int| 0 <= j < 8 && start[j] == ChannelPosition::SideRight;
                    assert(start.contains(ChannelPosition::SideRight));
                }
            }
            return;
        }
        proof {
            if start.contains(ChannelPosition::SideLeft) {
                let j = choose|j: int| 0 <= j < start.len() && start[j] == ChannelPosition::SideLeft;
                assert(prefix_contains(start, 8, ChannelPosition::SideLeft));
            }
            if start.contains(ChannelPosition::SideRight) {
                let j = choose|j: int| 0 <= j < start.len() && start[j] == ChannelPosition::SideRight;
                assert(prefix_contains(start, 8, ChannelPosition::SideRight));
            }
        }
        let mut i: usize = 0;
        while i < 8
            invariant
                i <= 8,
                start.len() == 8,
                positions@.len() == 8,
                forall|k: int|
                    0 <= k < 8 ==> #[trigger] positions@[k] == if k < i {
                        resolve_surrounds_spec(start)[k]
                    } else {
                        start[k]
                    },
                !start.contains(ChannelPosition::SideLeft),
                !start.contains(ChannelPosition::SideRight),
            decreases 8 - i,
        {
            if positions[i] == ChannelPosition::RearLeft {
                positions[i] = ChannelPosition::SideLeft;
            } else if positions[i] == ChannelPosition::RearRight {
                positions[i] = ChannelPosition::SideRight;
            }
            i += 1;
        }
        assert(positions@ =~= resolve_surrounds_spec(start));
    }
}

/// The channels that feed the left and right side of a stereo fold of
/// the first `channels` channels.
pub fn stereo_indices(channels: usize, positions: &Layout) -> (r: [usize; 2])
    requires
        channels <= 8,
    ensures
        r[0] as int == stereo_indices_spec(channels as int, positions@).0,
        r[1] as int == stereo_indices_spec(channels as int, positions@).1,
{
    let explicit_right = first_position(positions, channels, ChannelPosition::FrontRight);
    let left = match first_position(positions, channels, ChannelPosition::FrontLeft) {
        Some(i) => i,
        None => match first_position(positions, channels, ChannelPosition::Mono) {
            Some(i) => i,
            None => match first_other_exec(channels, explicit_right) {
                Some(i) => i,
                None => 0,
            },
        },
    };
    let right = match explicit_right {
        Some(i) => if i != left {
            i
        } else {
            match first_other_exec(channels, Some(left)) {
                Some(j) => j,
                None => left,
            }
        },
        None => match first_other_exec(channels, Some(left)) {
            Some(j) => j,
            None => left,
        },
    };
    [left, right]
}

/// A sound layout is left as it is by normalisation.
pub proof fn lemma_normalize_keeps_sound(channels: int, positions: Seq<ChannelPosition>)
    requires
        channels >= 0,
        sound_layout(positions, clamp_channels(channels)),
    ensures
        normalize_spec(channels, positions) == positions,
{
    let n = clamp_channels(channels);
    assert(clear_from(positions, n) =~= positions);
    lemma_sound_dedup_fill(positions, n, n);
}

/// Normalising twice gives the same layout as normalising once.
pub proof fn law_normalize_idempotent(channels: int, positions: Seq<ChannelPosition>)
    requires
        channels >= 0,
        positions.len() == 8,
    ensures
        normalize_spec(channels, normalize_spec(channels, positions)) == normalize_spec(
            channels,
            positions,
        ),
{
    lemma_normalize_sound(channels, positions);
    lemma_normalize_keeps_sound(channels, normalize_spec(channels, positions));
}

proof fn lemma_first_free_member(p: Seq<ChannelPosition>, n: int, cands: Seq<ChannelPosition>, k: int)
    requires
        0 <= k,
        first_free(p, n, cands, k) is Some,
    ensures
        exists|m: int| k <= m < cands.len() && cands[m] == first_free(p, n, cands, k)->0,
    decreases cands.len() - k,
{
    if k < cands.len() && !(cands[k] != ChannelPosition::Unknown && !prefix_contains(
        p,
        n,
        cands[k],
    )) {
        lemma_first_free_member(p, n, cands, k + 1);
    }
}

/// In the second pass every channel that was `Unknown` takes a position of
/// the conventional layout for `n` channels.
proof fn lemma_fill_from_fallback(d: Seq<ChannelPosition>, n: int, i: int)
    requires
        1 <= n <= 8,
        0 <= i <= n,
        d.len() == 8,
        forall|j: int| n <= j < 8 ==> d[j] == ChannelPosition::Unknown,
        forall|a: int, b: int|
            0 <= a < b < n && d[a] != ChannelPosition::Unknown ==> d[a] != d[b],
    ensures
        forall|j: int|
            0 <= j < i && d[j] == ChannelPosition::Unknown ==> fallback_spec(n).take(n).contains(
                #[trigger] fill_upto(d, n, i)[j],
            ),
    decreases i,
{
    if i > 0 {
        lemma_fill_from_fallback(d, n, i - 1);
        lemma_fill(d, n, i - 1);
        let q = fill_upto(d, n, i - 1);
        let fb = fallback_spec(n);
        lemma_fallback_shape(n);
        if q[i - 1] == ChannelPosition::Unknown {
            let cands = candidates(fb, i - 1);
            lemma_free_candidate_exists(q, n, i - 1);
            lemma_first_free_some(q, n, cands, 0);
            lemma_first_free_member(q, n, cands, 0);
            let c = first_free(q, n, cands, 0)->0;
            let m = choose|m: int| 0 <= m < cands.len() && cands[m] == c;
            let x = if m == 0 {
                i - 1
            } else {
                m - 1
            };
            assert(fb[x] == c);
            assert(x < n);
            assert(fb.take(n)[x] == c);
            let r = q.update(i - 1, c);
            assert(r == fill_upto(d, n, i));
            assert forall|j: int|
                0 <= j < i && d[j] == ChannelPosition::Unknown implies fb.take(n).contains(
                #[trigger] r[j],
            ) by {
                if j < i - 1 {
                    assert(r[j] == q[j]);
                }
            }
        } else {
            assert(q[i - 1] == d[i - 1]);
        }
    }
}

/// Every channel below the capture width whose reported position is not
/// kept (unknown, or reported by an earlier channel already) takes a
/// position of the conventional layout for that many channels.
pub proof fn law_normalize_refills_from_fallback(channels: int, positions: Seq<ChannelPosition>)
    requires
        positions.len() == 8,
        channels >= 0,
    ensures
        forall|i: int|
            0 <= i < clamp_channels(channels) && !kept_position(positions, i) ==> fallback_spec(
                clamp_channels(channels),
            ).take(clamp_channels(channels)).contains(
                #[trigger] normalize_spec(channels, positions)[i],
            ),
{
    let n = clamp_channels(channels);
    let c = clear_from(positions, n);
    lemma_dedup(c, n);
    let d = dedup_upto(c, n);
    if n >= 1 {
        assert forall|a: int, b: int|
            0 <= a < b < n && d[a] != ChannelPosition::Unknown implies d[a] != d[b] by {
            if d[a] == d[b] {
                assert(d[a] == c[a]);
                assert(d[b] == c[b]);
                assert(prefix_contains(c, b, c[b]));
            }
        }
        lemma_fill_from_fallback(d, n, n);
        assert forall|i: int|
            0 <= i < n && !kept_position(positions, i) implies fallback_spec(n).take(n).contains(
            #[trigger] normalize_spec(channels, positions)[i],
        ) by {
            assert(c[i] == positions[i]);
            if positions[i] != ChannelPosition::Unknown {
                let k = choose|k: int| 0 <= k < i && positions[k] == positions[i];
                assert(c[k] == positions[k]);
                assert(prefix_contains(c, i, c[i]));
            }
            assert(d[i] == ChannelPosition::Unknown);
            assert(normalize_spec(channels, positions) == fill_upto(d, n, n));
        }
    }
}

/// The format of the captured stream: channels, rate, the positions of
/// the channels, and a generation that moves on with every change.
#[derive(Debug, Clone, Copy, PartialEq, Eq)]
pub struct StreamFormat {
    pub channels: usize,
    pub rate: u32,
    pub generation: u64,
    pub positions: Layout,
}

/// The content of a stream format.
pub open spec fn stream_format_view(f: StreamFormat) -> (usize, u32, u64, Seq<ChannelPosition>) {
    (f.channels, f.rate, f.generation, f.positions@)
}

/// The format of `channels` channels at `rate` with reported `positions`:
/// between one and eight channels, a rate of at least one, and the
/// positions normalised.
pub open spec fn stream_format_spec(
    channels: usize,
    rate: u32,
    generation: u64,
    positions: Seq<ChannelPosition>,
) -> (usize, u32, u64, Seq<ChannelPosition>) {
    let n: usize = if channels < 1 {
        1
    } else if channels > 8 {
        8
    } else {
        channels
    };
    (n, if rate < 1 {
        1
    } else {
        rate
    }, generation, normalize_spec(n as int, positions))
}

/// Whether two layouts hold the same positions.
fn same_layout(a: &Layout, b: &Layout) -> (r: bool)
    ensures
        r == (a@ == b@),
{
    let mut i: usize = 0;
    while i < 8
        invariant
            i <= 8,
            forall|k: int| 0 <= k < i ==> a@[k] == b@[k],
        decreases 8 - i,
    {
        if a[i] != b[i] {
            return false;
        }
        i += 1;
    }
    proof {
        assert(a@ =~= b@);
    }
    true
}

impl StreamFormat {
    /// A format as the stream reports it.
    pub fn new(channels: usize, rate: u32, generation: u64, positions: Layout) -> (r: StreamFormat)
        ensures
            stream_format_view(r) == stream_format_spec(channels, rate, generation, positions@),
    {
        let n: usize = if channels < 1 {
            1
        } else if channels > 8 {
            8
        } else {
            channels
        };
        StreamFormat {
            channels: n,
            rate: if rate < 1 {
                1
            } else {
                rate
            },
            generation,
            positions: ChannelPosition::normalize(n, positions),
        }
    }

    /// Whether both formats are the same in every part.
    pub fn same_as(&self, other: &StreamFormat) -> (r: bool)
        ensures
            r == (stream_format_view(*self) == stream_format_view(*other)),
    {
        self.channels == other.channels && self.rate == other.rate && self.generation
            == other.generation && same_layout(&self.positions, &other.positions)
    }
}

/// The format to publish when the stream reports `channels`, `rate` and
/// `positions` while `current` is published: the current one when it is
/// a real format and nothing changed, else the reported one with the next
/// generation.
pub fn publish_format(current: &StreamFormat, channels: usize, rate: u32, positions: Layout) -> (r:
    StreamFormat)
    ensures
        ({
            let reported = stream_format_spec(channels, rate, current.generation, positions@);
            if current.generation != 0 && reported == stream_format_view(*current) {
                stream_format_view(r) == stream_format_view(*current)
            } else {
                stream_format_view(r) == (
                    reported.0,
                    reported.1,
                    current.generation.saturating_add(1),
                    reported.3,
                )
            }
        }),
{
    let format = StreamFormat::new(channels, rate, current.generation, positions);
    if current.generation != 0 && format.same_as(current) {
        return *current;
    }
    StreamFormat { generation: current.generation.saturating_add(1), ..format }
}

} // verus!
