//! Frame sampler: decides which decoded source frames to keep so that the
//! output plays at the target rate, copies each kept frame, and assigns it a
//! stable, contiguous sequence index.
use vstd::prelude::*;
use vstd::arithmetic::div_mod::lemma_fundamental_div_mod;
use vstd::arithmetic::div_mod::lemma_fundamental_div_mod_converse;
use vstd::arithmetic::div_mod::lemma_mod_multiples_basic;
use crate::frame::IndexedFrame;
use crate::frame::RasterFrame;

verus! {

/// `a / b` rounded to the nearest integer, ties away from zero, for positive
/// `a` and `b`.
pub open spec fn spec_rounded_rate_ratio(a: int, b: int) -> int {
    (2 * a + b) / (2 * b)
}

/// The sampling interval for an input rate and a target rate (both in
/// millihertz): `round(input / target)`, clamped to a minimum of 1 so that
/// sampling always keeps some frames.
pub open spec fn spec_frame_interval(input_milli: int, target_milli: int) -> int {
    if spec_rounded_rate_ratio(input_milli, target_milli) < 1 {
        1
    } else {
        spec_rounded_rate_ratio(input_milli, target_milli)
    }
}

/// Computes the sampling interval from an input and a target frame rate,
/// both given in millihertz.
pub fn compute_frame_interval(input_milli: u64, target_milli: u64) -> (r: u64)
    requires
        1 <= input_milli <= 1_000_000_000,
        1 <= target_milli <= 1_000_000_000,
    ensures
        r == spec_frame_interval(input_milli as int, target_milli as int),
        1 <= r <= 2_000_000_000,
{
    proof {
        vstd::arithmetic::div_mod::lemma_div_is_ordered_by_denominator(
            2 * (input_milli as int) + (target_milli as int),
            2,
            2 * (target_milli as int),
        );
        vstd::arithmetic::div_mod::lemma_div_is_ordered(
            2 * (input_milli as int) + (target_milli as int),
            3_000_000_000,
            2,
        );
    }
    let raw: u64 = (2 * input_milli + target_milli) / (2 * target_milli);
    if raw < 1 {
        1
    } else {
        raw
    }
}

/// Whether the source frame at 0-based position `frame_index` is kept when
/// sampling every `frame_interval`-th frame.
pub fn should_process_frame(frame_index: usize, frame_interval: usize) -> (b: bool)
    requires
        frame_interval >= 1,
    ensures
        b == ((frame_index as int) % (frame_interval as int) == 0),
{
    frame_index % frame_interval == 0
}

/// How many of the first `seen` source frames are kept when every
/// `interval`-th frame (starting with the first) is kept: `ceil(seen / interval)`.
pub open spec fn spec_kept_count(seen: int, interval: int) -> int {
    (seen + interval - 1) / interval
}

/// The sequence of indexed frames that sampling a source sequence produces:
/// the `j`-th kept frame is source frame `j * interval` and carries index `j`.
pub open spec fn spec_sampled(frames: Seq<RasterFrame>, interval: int) -> Seq<IndexedFrame> {
    Seq::new(
        spec_kept_count(frames.len() as int, interval) as nat,
        |j: int|
            IndexedFrame { index: j as usize, frame: frames[j * interval] },
    )
}

/// Reads source frames one at a time, keeps every `interval`-th one, and
/// assigns kept frames contiguous indices `0, 1, 2, ...` in arrival order.
pub struct FrameSampler {
    interval: usize,
    seen: usize,
    kept: Vec<IndexedFrame>,
    offered: Ghost<Seq<RasterFrame>>,
}

impl FrameSampler {
    /// The sampler has seen every frame in `offered_frames()` and holds
    /// exactly the sampled subsequence.
    pub closed spec fn wf(self) -> bool {
        &&& self.interval >= 1
        &&& self.seen == self.offered@.len()
        &&& self.kept@.len() == spec_kept_count(self.offered@.len() as int, self.interval as int)
        &&& forall|j: int|
            0 <= j < self.kept@.len() ==> (#[trigger] self.kept@[j]).index == j
                && self.kept@[j].frame == self.offered@[j * self.interval]
    }

    /// The sampling interval this sampler was built with.
    pub closed spec fn spec_interval(self) -> int {
        self.interval as int
    }

    /// Every source frame offered so far, in arrival order.
    pub closed spec fn offered_frames(self) -> Seq<RasterFrame> {
        self.offered@
    }

    /// The frames kept so far, each with its assigned index.
    pub closed spec fn kept_frames(self) -> Seq<IndexedFrame> {
        self.kept@
    }

    /// Creates a sampler that keeps every `interval`-th offered frame.
    pub fn new(interval: usize) -> (s: Self)
        requires
            interval >= 1,
        ensures
            s.wf(),
            s.spec_interval() == interval,
            s.offered_frames().len() == 0,
            s.kept_frames().len() == 0,
    {
        let s = FrameSampler {
            interval,
            seen: 0,
            kept: Vec::new(),
            offered: Ghost(Seq::empty()),
        };
        proof {
            assert(spec_kept_count(0, interval as int) == 0) by {
                lemma_fundamental_div_mod_converse(interval as int - 1, interval as int, 0, interval as int - 1);
            }
        }
        s
    }

    /// Offers the next source frame. The sampler keeps it exactly when its
    /// 0-based arrival position is a multiple of the interval; a kept frame
    /// is appended with index equal to the number of frames kept before it.
    pub fn offer(&mut self, frame: RasterFrame) -> (kept: bool)
        requires
            old(self).wf(),
            old(self).offered_frames().len() < usize::MAX,
        ensures
            final(self).wf(),
            final(self).spec_interval() == old(self).spec_interval(),
            final(self).offered_frames() == old(self).offered_frames().push(frame),
            kept == ((old(self).offered_frames().len() as int) % old(self).spec_interval() == 0),
            kept ==> final(self).kept_frames() == old(self).kept_frames().push(
                IndexedFrame { index: old(self).kept_frames().len() as usize, frame },
            ),
            !kept ==> final(self).kept_frames() == old(self).kept_frames(),
    {
        let ghost offered_pre = self.offered@;
        let ghost frame_spec = frame;
        let ghost m = self.interval as int;
        let ghost n = self.seen as int;
        let ghost q = n / m;
        let ghost r = n % m;
        proof {
            lemma_fundamental_div_mod(n, m);
        }
        let ghost old_len = self.kept@.len() as int;
        proof {
            assert(q * m == m * q) by (nonlinear_arith);
        }
        let kept_now = self.seen % self.interval == 0;
        if kept_now {
            let idx = self.kept.len();
            proof {
                assert((q + 1) * m == m * q + m) by (nonlinear_arith);
                // Before: ceil(n / m) = q, since n = q * m.
                lemma_fundamental_div_mod_converse(n + m - 1, m, q, m - 1);
                // After: ceil((n + 1) / m) = q + 1.
                lemma_fundamental_div_mod_converse(n + m, m, q + 1, 0);
                assert(idx as int == q);
            }
            self.kept.push(IndexedFrame { index: idx, frame });
        } else {
            proof {
                assert((q + 1) * m == m * q + m) by (nonlinear_arith);
                // Before and after, the kept count is q + 1.
                lemma_fundamental_div_mod_converse(n + m - 1, m, q + 1, r - 1);
                lemma_fundamental_div_mod_converse(n + m, m, q + 1, r);
            }
        }
        proof {
            self.offered@ = offered_pre.push(frame_spec);
        }
        self.seen = self.seen + 1;
        proof {
            // Every previously kept element reads a source position strictly
            // before the newly offered frame, so the push changes nothing it
            // sees; a newly kept element reads exactly the new frame, at
            // position q * m == n.
            lemma_fundamental_div_mod(n + m - 1, m);
            assert(m * old_len <= n + m - 1);
            assert forall|j: int| 0 <= j < self.kept@.len() implies
                (#[trigger] self.kept@[j]).index == j
                    && self.kept@[j].frame == self.offered@[j * m] by {
                if j < old_len {
                    assert(j * m <= n - 1) by (nonlinear_arith)
                        requires
                            0 <= j <= old_len - 1,
                            1 <= m,
                            m * old_len <= n + m - 1,
                    ;
                } else {
                    assert(q * m == n) by (nonlinear_arith)
                        requires n == m * q + r, r == 0;
                }
            }
        }
        kept_now
    }

    /// Hands back the kept frames. Their indices are contiguous from 0 and
    /// the frame under index `j` is the source frame at position
    /// `j * interval`.
    pub fn into_frames(self) -> (v: Vec<IndexedFrame>)
        requires
            self.wf(),
        ensures
            v@ == spec_sampled(self.offered_frames(), self.spec_interval()),
            v@.len() == spec_kept_count(self.offered_frames().len() as int, self.spec_interval()),
            forall|j: int|
                0 <= j < v@.len() ==> (#[trigger] v@[j]).index == j
                    && v@[j].frame == self.offered_frames()[j * self.spec_interval()],
    {
        proof {
            assert(self.kept@ =~= spec_sampled(self.offered@, self.interval as int));
        }
        let FrameSampler { interval: _, seen: _, kept, offered: _ } = self;
        kept
    }
}

/// Sampling keeps exactly the source frames whose 0-based position is a
/// multiple of the interval: position `k` of a source of `n` frames is kept
/// if and only if some kept index `j` reads it, and that `j` is `k / m`.
pub proof fn lemma_sampler_keeps_multiples(n: int, m: int, k: int)
    requires
        1 <= m,
        0 <= k < n,
    ensures
        (k % m == 0) <==> (exists|j: int|
            0 <= j < spec_kept_count(n, m) && #[trigger] (j * m) == k),
{
    if k % m == 0 {
        let q = k / m;
        lemma_fundamental_div_mod(k, m);
        // k <= n - 1, so q fits under the kept count ceil(n / m).
        let qc = (n + m - 1) / m;
        lemma_fundamental_div_mod(n + m - 1, m);
        assert(q < qc) by (nonlinear_arith)
            requires
                1 <= m,
                k == m * q,
                0 <= k < n,
                n + m - 1 == m * qc + (n + m - 1) % m,
                0 <= (n + m - 1) % m < m,
        ;
        assert(q * m == k) by (nonlinear_arith)
            requires k == m * q;
        assert(0 <= q < spec_kept_count(n, m) && q * m == k);
    }
    if exists|j: int| 0 <= j < spec_kept_count(n, m) && #[trigger] (j * m) == k {
        let j = choose|j: int| 0 <= j < spec_kept_count(n, m) && #[trigger] (j * m) == k;
        lemma_mod_multiples_basic(j, m);
    }
}

} // verus!
