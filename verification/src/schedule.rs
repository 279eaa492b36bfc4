//! Parallel transcode scheduler and ordered reassembler: fan the sampled
//! frames out across worker threads, apply the frame transform to each one
//! independently, propagate the first task failure as the batch result, and
//! restore original sequence order before anything reaches the encoder.
use vstd::prelude::*;
use rayon::iter::IntoParallelIterator;
use rayon::iter::ParallelIterator;
use crate::frame::IndexedFrame;
use crate::frame::RasterFrame;
use crate::frame::TranscodeError;
use crate::rasterize::GlyphAtlas;
use crate::transform::process_single_frame;
use crate::transform::transform_post;
use crate::transform::transformed_data;
use crate::transform::TranscodeJob;

verus! {

/// Relies on rayon's parallel iterator over a vector:
/// `into_par_iter().map(f).collect::<Vec<_>>()` applies `f` to every element
/// and collects exactly one output per input, in the input's order, whatever
/// order the worker threads complete in. The closure only calls the verified
/// frame transform, so each collected slot satisfies its contract.
#[verifier::external_body]
fn par_transform(
    frames: Vec<IndexedFrame>,
    job: &TranscodeJob,
    atlas: &GlyphAtlas,
) -> (r: Vec<Result<IndexedFrame, TranscodeError>>)
    requires
        job.wf(),
        atlas.wf(),
    ensures
        r@.len() == frames@.len(),
        forall|i: int|
            0 <= i < frames@.len() ==> transform_post(frames@[i], *job, *atlas, #[trigger] r@[i]),
{
    frames.into_par_iter().map(|f| process_single_frame(f, job, atlas)).collect()
}

/// The first task failure in a batch of transform results, if any.
pub open spec fn first_error(results: Seq<Result<IndexedFrame, TranscodeError>>) -> Option<
    TranscodeError,
>
    decreases results.len(),
{
    if results.len() == 0 {
        None
    } else if results[0] is Err {
        Some(results[0]->Err_0)
    } else {
        first_error(results.drop_first())
    }
}

/// A batch whose first error exists has a failed slot carrying that error.
proof fn lemma_first_error_witness(results: Seq<Result<IndexedFrame, TranscodeError>>)
    requires
        first_error(results) is Some,
    ensures
        exists|k: int|
            0 <= k < results.len() && (#[trigger] results[k]) is Err
                && Some(results[k]->Err_0) == first_error(results),
    decreases results.len(),
{
    if results[0] is Err {
        assert(results[0] is Err && Some(results[0]->Err_0) == first_error(results));
    } else {
        lemma_first_error_witness(results.drop_first());
        let k = choose|k: int|
            0 <= k < results.drop_first().len() && (#[trigger] results.drop_first()[k]) is Err
                && Some(results.drop_first()[k]->Err_0) == first_error(results.drop_first());
        assert(results[k + 1] is Err && Some(results[k + 1]->Err_0) == first_error(results));
    }
}

/// Collects a batch of per-task results: all successes yield the outputs in
/// slot order, and any failure yields the first failure, abandoning the rest.
pub fn collect_transform_results(results: Vec<Result<IndexedFrame, TranscodeError>>) -> (r: Result<
    Vec<IndexedFrame>,
    TranscodeError,
>)
    ensures
        match r {
            Ok(frames) => first_error(results@) is None && frames@.len() == results@.len()
                && forall|i: int|
                0 <= i < results@.len() ==> (#[trigger] results@[i]) is Ok && frames@[i]
                    == results@[i]->Ok_0,
            Err(e) => first_error(results@) == Some(e),
        },
{
    let ghost orig = results@;
    let n = results.len();
    let mut rest = results;
    let mut out: Vec<IndexedFrame> = Vec::new();
    let mut k: usize = 0;
    proof {
        assert(orig.skip(0) =~= orig);
    }
    while k < n
        invariant
            results@ == orig,
            k <= n,
            n == orig.len(),
            rest@ == orig.skip(k as int),
            out@.len() == k,
            forall|i: int| 0 <= i < k ==> (#[trigger] orig[i]) is Ok && out@[i] == orig[i]->Ok_0,
            first_error(orig) == first_error(orig.skip(k as int)),
        decreases n - k,
    {
        let item = rest.remove(0);
        proof {
            assert(orig.skip(k as int)[0] == orig[k as int]);
            assert(orig.skip(k as int).remove(0) =~= orig.skip(k as int + 1));
            assert(orig.skip(k as int).drop_first() =~= orig.skip(k as int + 1));
        }
        match item {
            Ok(f) => {
                out.push(f);
            }
            Err(e) => {
                proof {
                    assert(orig.skip(k as int).len() > 0);
                    assert(first_error(orig.skip(k as int)) == Some(e));
                }
                return Err(e);
            }
        }
        k = k + 1;
    }
    proof {
        assert(orig.skip(n as int) =~= Seq::<Result<IndexedFrame, TranscodeError>>::empty());
    }
    Ok(out)
}

/// Whether `f` is one of the elements of `orig`.
pub open spec fn from_input(orig: Seq<IndexedFrame>, f: IndexedFrame) -> bool {
    exists|q: int| 0 <= q < orig.len() && f == #[trigger] orig[q]
}

/// Whether some slot of `frames` carries the sequence index `w`.
pub open spec fn index_present(frames: Seq<IndexedFrame>, w: int) -> bool {
    exists|j: int| 0 <= j < frames.len() && (#[trigger] frames[j]).index == w
}

/// Finds a slot holding the wanted index; one exists by precondition.
fn find_index(frames: &Vec<IndexedFrame>, want: usize) -> (j: usize)
    requires
        index_present(frames@, want as int),
    ensures
        j < frames@.len(),
        frames@[j as int].index == want,
{
    let mut j: usize = 0;
    while j < frames.len()
        invariant
            j <= frames@.len(),
            index_present(frames@, want as int),
            forall|k: int| 0 <= k < j ==> (#[trigger] frames@[k]).index != want,
        decreases frames@.len() - j,
    {
        if frames[j].index == want {
            return j;
        }
        j = j + 1;
    }
    proof {
        let k = choose|k: int| 0 <= k < frames@.len() && (#[trigger] frames@[k]).index == want;
        assert(false);
    }
    vstd::pervasive::unreached()
}

/// Restores original sequence order: the returned list holds, at position
/// `i`, an input element carrying index `i`. With unique input indices this
/// is exactly the input sorted by index ascending.
pub fn reassemble(frames: Vec<IndexedFrame>) -> (r: Vec<IndexedFrame>)
    requires
        forall|w: int| 0 <= w < frames@.len() ==> #[trigger] index_present(frames@, w),
    ensures
        r@.len() == frames@.len(),
        forall|i: int| 0 <= i < r@.len() ==> (#[trigger] r@[i]).index == i,
        forall|i: int| 0 <= i < r@.len() ==> #[trigger] from_input(frames@, r@[i]),
{
    let ghost orig = frames@;
    let n = frames.len();
    let mut rest = frames;
    let mut out: Vec<IndexedFrame> = Vec::new();
    let mut i: usize = 0;
    proof {
        assert forall|p: int| 0 <= p < rest@.len() implies
            #[trigger] from_input(orig, rest@[p]) by {
            assert(rest@[p] == orig[p]);
        }
    }
    while i < n
        invariant
            i <= n,
            n == orig.len(),
            rest@.len() == n - i,
            out@.len() == i,
            forall|p: int| 0 <= p < rest@.len() ==> #[trigger] from_input(orig, rest@[p]),
            forall|w: int| i <= w < n ==> #[trigger] index_present(rest@, w),
            forall|k: int| 0 <= k < i ==> (#[trigger] out@[k]).index == k,
            forall|k: int| 0 <= k < i ==> #[trigger] from_input(orig, out@[k]),
        decreases n - i,
    {
        let ghost rest_pre = rest@;
        let j = find_index(&rest, i);
        let f = rest.swap_remove(j);
        out.push(f);
        proof {
            let jl = j as int;
            let last = rest_pre.len() - 1;
            // Every remaining slot still came from the input.
            assert forall|p: int| 0 <= p < rest@.len() implies
                #[trigger] from_input(orig, rest@[p]) by {
                if p == jl && jl < last {
                    assert(rest@[p] == rest_pre[last]);
                    assert(from_input(orig, rest_pre[last]));
                } else {
                    assert(rest@[p] == rest_pre[p]);
                    assert(from_input(orig, rest_pre[p]));
                }
            }
            assert(from_input(orig, rest_pre[jl]));
            // Every still-wanted index keeps a witness: the removed slot held
            // index `i`, which is no longer wanted, and the slot that moved
            // keeps its value.
            assert forall|w: int| i + 1 <= w < n implies #[trigger] index_present(rest@, w) by {
                assert(index_present(rest_pre, w));
                let p0 = choose|p: int|
                    0 <= p < rest_pre.len() && (#[trigger] rest_pre[p]).index == w;
                if p0 == last {
                    assert(jl != last ==> rest@[jl] == rest_pre[last]);
                    assert(jl != last ==> rest@[jl].index == w);
                } else {
                    assert(p0 != jl);
                    assert(rest@[p0] == rest_pre[p0]);
                    assert(rest@[p0].index == w);
                }
            }
        }
        i = i + 1;
    }
    out
}

/// Whether every sampled frame is well formed, which is exactly when the
/// whole batch transform succeeds.
pub open spec fn all_frames_wf(sampled: Seq<IndexedFrame>) -> bool {
    forall|i: int| 0 <= i < sampled.len() ==> (#[trigger] sampled[i]).frame.wf()
}

/// What the parallel transcode phase returns for sampled frames carrying
/// contiguous indices: success exactly when every sampled frame is well
/// formed, in which case the output holds one transformed frame per input,
/// in index order, each pinned to the frame transform of its input; any task
/// failure surfaces as the transform error, with no output at all.
pub open spec fn transcode_post(
    sampled: Seq<IndexedFrame>,
    job: TranscodeJob,
    atlas: GlyphAtlas,
    r: Result<Vec<IndexedFrame>, TranscodeError>,
) -> bool {
    &&& (r is Ok <==> all_frames_wf(sampled))
    &&& (r is Ok ==> {
        let out = r->Ok_0@;
        &&& out.len() == sampled.len()
        &&& forall|i: int|
            0 <= i < out.len() ==> (#[trigger] out[i]).index == i && out[i].frame.wf()
                && out[i].frame.width == job.width && out[i].frame.height == job.height
                && out[i].frame.data@ == transformed_data(sampled[i].frame, job, atlas)
    })
    &&& (r is Err ==> r->Err_0 == TranscodeError::Transform)
}

/// Transforms every sampled frame on a worker pool and reassembles the
/// results in original order. The call blocks until every task completes or
/// one fails; a single task failure is fatal for the whole batch, and the
/// first failure wins.
pub fn transcode_frames(
    sampled: Vec<IndexedFrame>,
    job: &TranscodeJob,
    atlas: &GlyphAtlas,
) -> (r: Result<Vec<IndexedFrame>, TranscodeError>)
    requires
        job.wf(),
        atlas.wf(),
        forall|i: int| 0 <= i < sampled@.len() ==> (#[trigger] sampled@[i]).index == i,
    ensures
        transcode_post(sampled@, *job, *atlas, r),
{
    let ghost s = sampled@;
    let results = par_transform(sampled, job, atlas);
    let ghost res = results@;
    let collected = collect_transform_results(results);
    match collected {
        Err(e) => {
            proof {
                lemma_first_error_witness(res);
                let k = choose|k: int|
                    0 <= k < res.len() && (#[trigger] res[k]) is Err
                        && Some(res[k]->Err_0) == first_error(res);
                assert(transform_post(s[k], *job, *atlas, res[k]));
                assert(!s[k].frame.wf());
            }
            Err(e)
        }
        Ok(frames) => {
            proof {
                assert forall|w: int| 0 <= w < frames@.len() implies
                    #[trigger] index_present(frames@, w) by {
                    assert(transform_post(s[w], *job, *atlas, res[w]));
                    assert(frames@[w].index == s[w].index);
                    assert((frames@[w]).index == w);
                }
                assert forall|w: int| 0 <= w < s.len() implies
                    (#[trigger] s[w]).frame.wf() by {
                    assert(transform_post(s[w], *job, *atlas, res[w]));
                }
            }
            let ordered = reassemble(frames);
            proof {
                assert forall|i: int| 0 <= i < ordered@.len() implies
                    (#[trigger] ordered@[i]).index == i && ordered@[i].frame.wf()
                        && ordered@[i].frame.width == job.width
                        && ordered@[i].frame.height == job.height
                        && ordered@[i].frame.data@ == transformed_data(s[i].frame, *job, *atlas) by {
                    assert(from_input(frames@, ordered@[i]));
                    let j = choose|j: int|
                        0 <= j < frames@.len() && ordered@[i] == #[trigger] frames@[j];
                    assert(transform_post(s[j], *job, *atlas, res[j]));
                    assert(frames@[j].index == j);
                    assert(j == i);
                }
            }
            Ok(ordered)
        }
    }
}

/// The reassembled output covers exactly the index range of the kept frames:
/// its index sequence, as a set, is `{0, 1, ..., K-1}`, with no duplicates.
pub proof fn lemma_output_indices_complete(out: Seq<IndexedFrame>)
    requires
        forall|i: int| 0 <= i < out.len() ==> (#[trigger] out[i]).index == i,
    ensures
        out.map_values(|f: IndexedFrame| f.index as int).to_set() =~= Set::new(
            |i: int| 0 <= i < out.len(),
        ),
        forall|i: int, j: int|
            0 <= i < out.len() && 0 <= j < out.len() && i != j ==> out[i].index != out[j].index,
{
    let ids = out.map_values(|f: IndexedFrame| f.index as int);
    assert forall|x: int| #[trigger] ids.to_set().contains(x) implies 0 <= x < out.len() by {
        let i = choose|i: int| 0 <= i < ids.len() && ids[i] == x;
        assert(out[i].index == i);
    }
    assert forall|x: int| 0 <= x < out.len() implies #[trigger] ids.to_set().contains(x) by {
        assert(ids[x] == x);
        assert(ids.contains(x));
    }
}

/// End to end: when the whole pipeline succeeds on the frames a sampler
/// kept from a source sequence, the number of output frames is the number of
/// kept frames `K = ceil(source_len / interval)`, and the output's index
/// sequence covers exactly `{0, 1, ..., K-1}` — no gaps, no duplicates.
pub proof fn lemma_pipeline_indices(
    offered: Seq<RasterFrame>,
    interval: int,
    job: TranscodeJob,
    atlas: GlyphAtlas,
    r: Result<Vec<IndexedFrame>, TranscodeError>,
)
    requires
        1 <= interval,
        transcode_post(crate::sampler::spec_sampled(offered, interval), job, atlas, r),
        r is Ok,
    ensures
        r->Ok_0@.len() == crate::sampler::spec_kept_count(offered.len() as int, interval),
        r->Ok_0@.map_values(|f: IndexedFrame| f.index as int).to_set() =~= Set::new(
            |i: int| 0 <= i < r->Ok_0@.len(),
        ),
        forall|i: int, j: int|
            0 <= i < r->Ok_0@.len() && 0 <= j < r->Ok_0@.len() && i != j
                ==> r->Ok_0@[i].index != r->Ok_0@[j].index,
{
    lemma_output_indices_complete(r->Ok_0@);
}

/// A single forced task failure makes the whole call fail with the first
/// error, and no frame list — so nothing — is handed onward to the sink.
pub proof fn lemma_fatal_error_propagation(
    sampled: Seq<IndexedFrame>,
    job: TranscodeJob,
    atlas: GlyphAtlas,
    r: Result<Vec<IndexedFrame>, TranscodeError>,
    i: int,
)
    requires
        transcode_post(sampled, job, atlas, r),
        0 <= i < sampled.len(),
        !sampled[i].frame.wf(),
    ensures
        r is Err,
        r->Err_0 == TranscodeError::Transform,
{
}

/// Determinism of the whole transform-and-reassemble phase: for one list of
/// sampled frames, job, and atlas, any two results meeting the phase
/// contract agree on success, on every output frame's index, dimensions and
/// pixels, and on the error — worker scheduling cannot show through.
pub proof fn lemma_transcode_deterministic(
    sampled: Seq<IndexedFrame>,
    job: TranscodeJob,
    atlas: GlyphAtlas,
    r1: Result<Vec<IndexedFrame>, TranscodeError>,
    r2: Result<Vec<IndexedFrame>, TranscodeError>,
)
    requires
        transcode_post(sampled, job, atlas, r1),
        transcode_post(sampled, job, atlas, r2),
    ensures
        r1 is Ok <==> r2 is Ok,
        r1 is Ok ==> r1->Ok_0@.len() == r2->Ok_0@.len(),
        r1 is Ok ==> forall|i: int|
            0 <= i < r1->Ok_0@.len() ==> (#[trigger] r1->Ok_0@[i]).index == r2->Ok_0@[i].index
                && r1->Ok_0@[i].frame.width == r2->Ok_0@[i].frame.width
                && r1->Ok_0@[i].frame.height == r2->Ok_0@[i].frame.height
                && r1->Ok_0@[i].frame.data@ == r2->Ok_0@[i].frame.data@,
        r1 is Err ==> r1->Err_0 == r2->Err_0,
{
}

} // verus!
