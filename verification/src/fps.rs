//! Rolling frame-rate sampler.
//!
//! The sampler keeps a fixed ring of the last hundred instantaneous frame
//! rates and reports their minimum, average and maximum on demand. The host
//! passes each call a monotonic clock reading in whole milliseconds; the
//! instantaneous rate for a gap of `delta` milliseconds is `1000 / delta`
//! frames per second, rounded to the nearest whole frame (halves away from
//! zero), and the ring holds these whole-frame rates. A call whose clock
//! reading does not move forward would divide by zero, so it records
//! nothing: it stores the reading and reports the statistics of the
//! untouched ring.
//!
//! Until the ring has wrapped once, the statistics still range over its
//! never-written zero slots; `enough` tells a caller whether the readings
//! have warmed up past that.

use vstd::prelude::*;
use vstd::arithmetic::div_mod::lemma_fundamental_div_mod;
use vstd::arithmetic::div_mod::lemma_fundamental_div_mod_converse;
use vstd::arithmetic::mul::lemma_mul_inequality;

verus! {

/// `p / q` rounded to the nearest integer, halves away from zero, for
/// `p >= 0` and `q > 0`.
pub open spec fn round_div(p: int, q: int) -> int {
    (2 * p + q) / (2 * q)
}

/// The instantaneous frame rate a gap of `delta` milliseconds stands for:
/// `1000 / delta` frames per second, rounded to the nearest whole frame.
pub open spec fn fps_value(delta: int) -> int {
    round_div(1000, delta)
}

pub open spec fn seq_sum(s: Seq<u64>) -> int
    decreases s.len(),
{
    if s.len() == 0 {
        0
    } else {
        seq_sum(s.drop_last()) + s.last()
    }
}

pub open spec fn seq_min(s: Seq<u64>) -> int
    decreases s.len(),
{
    if s.len() == 0 {
        0
    } else if s.len() == 1 {
        s[0] as int
    } else if s.last() < seq_min(s.drop_last()) {
        s.last() as int
    } else {
        seq_min(s.drop_last())
    }
}

pub open spec fn seq_max(s: Seq<u64>) -> int
    decreases s.len(),
{
    if s.len() == 0 {
        0
    } else if s.len() == 1 {
        s[0] as int
    } else if s.last() > seq_max(s.drop_last()) {
        s.last() as int
    } else {
        seq_max(s.drop_last())
    }
}

/// Rounded statistics over the sampler's ring buffer, in whole frames per
/// second.
pub struct Output {
    pub avg: u64,
    pub min: u64,
    pub max: u64,
}

impl Output {
    pub fn avg(&self) -> (r: u64)
        ensures
            r == self.avg,
    {
        self.avg
    }

    pub fn min(&self) -> (r: u64)
        ensures
            r == self.min,
    {
        self.min
    }

    pub fn max(&self) -> (r: u64)
        ensures
            r == self.max,
    {
        self.max
    }
}

/// A rolling sampler over the last hundred instantaneous frame rates.
pub struct FPS {
    frames: Vec<u64>,
    last_frame_time_stamp: u64,
    current_frame: usize,
    enough: bool,
}

impl FPS {
    /// The ring buffer of whole-frame rates, oldest entries overwritten
    /// first.
    pub closed spec fn samples(&self) -> Seq<u64> {
        self.frames@
    }

    /// The next write position in the ring.
    pub closed spec fn cursor(&self) -> int {
        self.current_frame as int
    }

    /// The clock reading of the previous call, in milliseconds.
    pub closed spec fn last_time(&self) -> int {
        self.last_frame_time_stamp as int
    }

    /// Whether the ring has wrapped once, so no default slot is left among
    /// the statistics.
    pub closed spec fn warmed(&self) -> bool {
        self.enough
    }

    /// The ring holds exactly one hundred rates, each at most the 1000
    /// frames per second that a one-millisecond gap stands for.
    pub open spec fn wf(&self) -> bool {
        &&& self.samples().len() == 100
        &&& 0 <= self.cursor() < 100
        &&& forall|i: int| 0 <= i < 100 ==> self.samples()[i] <= 1000
    }

    /// A sampler with an all-zero ring, whose previous clock reading is
    /// `now`, the host's clock at construction, in milliseconds.
    pub fn new(now: u64) -> (fps: FPS)
        ensures
            fps.wf(),
            fps.samples() == Seq::new(100, |i: int| 0u64),
            fps.cursor() == 0,
            fps.last_time() == now,
            !fps.warmed(),
    {
        let mut frames: Vec<u64> = Vec::new();
        let mut i: usize = 0;
        while i < 100
            invariant
                i <= 100,
                frames@.len() == i,
                forall|j: int| 0 <= j < i ==> frames@[j] == 0u64,
            decreases 100 - i,
        {
            frames.push(0);
            i += 1;
        }
        proof {
            assert(frames@ =~= Seq::new(100, |i: int| 0u64));
        }
        FPS { frames, last_frame_time_stamp: now, current_frame: 0, enough: false }
    }

    /// Whether the ring has wrapped once and the statistics no longer range
    /// over default slots.
    pub fn enough(&self) -> (r: bool)
        ensures
            r == self.warmed(),
    {
        self.enough
    }

    /// `1000 / delta` rounded to the nearest whole frame, halves away from
    /// zero, computed exactly in integers.
    fn fps_from_delta(delta: u64) -> (fps: u64)
        requires
            delta >= 1,
        ensures
            fps == fps_value(delta as int),
            fps <= 1000,
    {
        let d = delta as u128;
        let r = (2000u128 + d) / (2 * d);
        proof {
            let di = d as int;
            let q = (2000 + di) / (2 * di);
            lemma_fundamental_div_mod(2000 + di, 2 * di);
            if q > 1000 {
                lemma_mul_inequality(1001, q, 2 * di);
                assert(false);
            }
        }
        r as u64
    }

    /// Record one frame against the host's clock reading `now`, in
    /// milliseconds, and report the ring's statistics.
    ///
    /// A reading that moved forward stores the gap's whole-frame rate at
    /// the cursor and advances it; the sampler is warmed up once the cursor
    /// wraps past the ring's second-to-last slot. A reading that did not
    /// move forward records nothing. Either way the reading replaces the
    /// remembered previous one, and the returned statistics are the
    /// minimum, rounded average and maximum over all hundred slots of the
    /// ring as this call leaves it.
    pub fn render(&mut self, now: u64) -> (out: Output)
        requires
            old(self).wf(),
        ensures
            final(self).wf(),
            final(self).last_time() == now,
            now > old(self).last_time() ==> final(self).samples() == old(self).samples().update(
                old(self).cursor(),
                fps_value(now - old(self).last_time()) as u64,
            ),
            now > old(self).last_time() ==> final(self).cursor() == (old(self).cursor() + 1) % 100,
            now > old(self).last_time() ==> (final(self).warmed() <==> (old(self).warmed() || (old(
                self,
            ).cursor() + 1) % 100 == 99)),
            now <= old(self).last_time() ==> final(self).samples() == old(self).samples(),
            now <= old(self).last_time() ==> final(self).cursor() == old(self).cursor(),
            now <= old(self).last_time() ==> final(self).warmed() == old(self).warmed(),
            out.min == seq_min(final(self).samples()),
            out.max == seq_max(final(self).samples()),
            out.avg == round_div(seq_sum(final(self).samples()), 100),
    {
        let last = self.last_frame_time_stamp;
        self.last_frame_time_stamp = now;
        if now > last {
            let delta = now - last;
            let fps = Self::fps_from_delta(delta);
            let cur = self.current_frame;
            self.frames[cur] = fps;
            self.current_frame = (cur + 1) % 100;
            if self.current_frame == 99 {
                self.enough = true;
            }
        }
        let ghost s = self.samples();
        let mut mn: u64 = self.frames[0];
        let mut mx: u64 = self.frames[0];
        let mut sum: u64 = self.frames[0];
        let mut i: usize = 1;
        proof {
            lemma_stats_singleton(s);
        }
        while i < 100
            invariant
                self.wf(),
                s == self.samples(),
                1 <= i <= 100,
                mn == seq_min(s.take(i as int)),
                mx == seq_max(s.take(i as int)),
                sum == seq_sum(s.take(i as int)),
                sum <= 1000 * i,
            decreases 100 - i,
        {
            let v = self.frames[i];
            proof {
                assert(s.take(i as int + 1).drop_last() =~= s.take(i as int));
                assert(s.take(i as int + 1).last() == s[i as int]);
            }
            if v < mn {
                mn = v;
            }
            if v > mx {
                mx = v;
            }
            sum = sum + v;
            i += 1;
        }
        proof {
            assert(s.take(100) =~= s);
        }
        let avg = (2 * sum + 100) / 200;
        Output { avg, min: mn, max: mx }
    }
}

/// The ring after `k` further writes of the rate `v`, each at the cursor,
/// the cursor advancing and wrapping exactly as `render` advances it.
pub open spec fn fed_ring(s: Seq<u64>, c: int, v: u64, k: nat) -> Seq<u64>
    decreases k,
{
    if k == 0 {
        s
    } else {
        fed_ring(s.update(c, v), (c + 1) % 100, v, (k - 1) as nat)
    }
}

/// The slots a run of `k` writes starting at cursor `c` touches, for
/// `k <= 100`: the `k` positions from `c` on, wrapped past the end.
pub open spec fn in_window(c: int, k: int, i: int) -> bool {
    (c <= i < c + k) || i < c + k - 100
}

/// A run of at most one hundred writes sets exactly its window to `v` and
/// leaves every other slot alone.
proof fn lemma_fed_window(s: Seq<u64>, c: int, v: u64, k: nat)
    requires
        s.len() == 100,
        0 <= c < 100,
        k <= 100,
    ensures
        fed_ring(s, c, v, k).len() == 100,
        forall|i: int|
            0 <= i < 100 ==> fed_ring(s, c, v, k)[i] == (if in_window(c, k as int, i) {
                v
            } else {
                s[i]
            }),
    decreases k,
{
    if k > 0 {
        lemma_fed_window(s.update(c, v), (c + 1) % 100, v, (k - 1) as nat);
    }
}

/// Law: one hundred or more constant-rate writes fill the ring with that
/// rate, wherever the cursor started. With `lemma_uniform_buffer_stats`,
/// once a hundred or more frames of one constant gap have been recorded,
/// the reported minimum, average and maximum all equal that gap's rate.
pub proof fn lemma_constant_feed_fills_ring(s: Seq<u64>, c: int, v: u64, k: nat)
    requires
        s.len() == 100,
        0 <= c < 100,
        k >= 100,
    ensures
        fed_ring(s, c, v, k).len() == 100,
        forall|i: int| 0 <= i < 100 ==> fed_ring(s, c, v, k)[i] == v,
    decreases k,
{
    if k == 100 {
        lemma_fed_window(s, c, v, k);
    } else {
        lemma_constant_feed_fills_ring(s.update(c, v), (c + 1) % 100, v, (k - 1) as nat);
    }
}

/// The statistics of a one-slot prefix are that slot.
proof fn lemma_stats_singleton(s: Seq<u64>)
    requires
        s.len() >= 1,
    ensures
        seq_min(s.take(1)) == s[0],
        seq_max(s.take(1)) == s[0],
        seq_sum(s.take(1)) == s[0],
{
    let t = s.take(1);
    assert(t.len() == 1);
    assert(t.drop_last() =~= Seq::<u64>::empty());
    assert(seq_sum(t.drop_last()) == 0);
    assert(t.last() == s[0]);
    assert(t[0] == s[0]);
}

/// Law: a ring holding one uniform rate reports that rate as minimum,
/// average and maximum alike. After a hundred or more frames of one
/// constant gap, every slot holds that gap's whole-frame rate, so all
/// three statistics equal it.
pub proof fn lemma_uniform_buffer_stats(s: Seq<u64>, v: u64)
    requires
        s.len() == 100,
        forall|i: int| 0 <= i < 100 ==> s[i] == v,
    ensures
        seq_min(s) == v,
        seq_max(s) == v,
        round_div(seq_sum(s), 100) == v,
{
    lemma_const_prefix_stats(s, v, 100);
    assert(s.take(100) =~= s);
    lemma_fundamental_div_mod_converse(2 * (100 * v) + 100, 200, v as int, 100);
}

/// The statistics of a constant prefix, by induction on its length.
proof fn lemma_const_prefix_stats(s: Seq<u64>, v: u64, n: int)
    requires
        1 <= n <= s.len(),
        forall|i: int| 0 <= i < n ==> s[i] == v,
    ensures
        seq_min(s.take(n)) == v,
        seq_max(s.take(n)) == v,
        seq_sum(s.take(n)) == n * v,
    decreases n,
{
    if n == 1 {
        lemma_stats_singleton(s);
    } else {
        lemma_const_prefix_stats(s, v, n - 1);
        assert(s.take(n).drop_last() =~= s.take(n - 1));
        assert(s.take(n).last() == s[n - 1]);
        assert((n - 1) * v + v == n * v) by (nonlinear_arith);
    }
}

} // verus!
