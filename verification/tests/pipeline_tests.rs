use rascii::frame::IndexedFrame;
use rascii::frame::RasterFrame;
use rascii::frame::TranscodeError;
use rascii::rasterize::CoverageSpan;
use rascii::rasterize::GlyphAtlas;
use rascii::rasterize::GlyphBitmap;
use rascii::sampler::compute_frame_interval;
use rascii::sampler::should_process_frame;
use rascii::sampler::FrameSampler;
use rascii::schedule::collect_transform_results;
use rascii::schedule::reassemble;
use rascii::schedule::transcode_frames;
use rascii::transform::process_single_frame;
use rascii::transform::TranscodeJob;

fn solid_frame(width: u32, height: u32, r: u8, g: u8, b: u8) -> RasterFrame {
    let mut data = Vec::new();
    for _ in 0..(width * height) {
        data.push(r);
        data.push(g);
        data.push(b);
    }
    RasterFrame { width, height, data }
}

fn test_job(width: u32, height: u32, char_width: u32) -> TranscodeJob {
    TranscodeJob {
        input: String::from("in.mp4"),
        output: String::from("out.mp4"),
        width,
        height,
        char_width,
        style: None,
        font_size: 10,
        fps_milli: Some(10_000),
    }
}

fn test_atlas() -> GlyphAtlas {
    let mut glyphs = Vec::new();
    let chars = "@%#*+=-:. ";
    for (i, ch) in chars.chars().enumerate() {
        glyphs.push(GlyphBitmap {
            ch,
            spans: vec![CoverageSpan { dx: 0, dy: 0, level: 100 + i as u8, inked: true }],
        });
    }
    GlyphAtlas { font_size: 10, ascent: 2, glyphs }
}

#[test]
fn interval_follows_rate_ratio() {
    // round(30 / 10) = 3, rates given in millihertz
    assert_eq!(compute_frame_interval(30_000, 10_000), 3);
    assert_eq!(compute_frame_interval(30_000, 30_000), 1);
    // round(25 / 10) = round(2.5) = 3, ties away from zero
    assert_eq!(compute_frame_interval(25_000, 10_000), 3);
    // a target above the input clamps to 1
    assert_eq!(compute_frame_interval(10_000, 30_000), 1);
}

#[test]
fn sampling_keeps_every_third_frame() {
    // F_in = 30, F_target = 10, interval = 3: source frames 0, 3, 6, 9 kept
    let interval = compute_frame_interval(30_000, 10_000) as usize;
    let mut sampler = FrameSampler::new(interval);
    let mut kept_positions = Vec::new();
    for k in 0..10usize {
        let frame = solid_frame(2, 2, k as u8, 0, 0);
        if sampler.offer(frame) {
            kept_positions.push(k);
        }
        assert_eq!(should_process_frame(k, interval), k % 3 == 0);
    }
    assert_eq!(kept_positions, vec![0, 3, 6, 9]);
    let kept = sampler.into_frames();
    assert_eq!(kept.len(), 4);
    for (j, f) in kept.iter().enumerate() {
        assert_eq!(f.index, j);
        // the j-th kept frame is source frame j * interval
        assert_eq!(f.frame.data[0], (j * 3) as u8);
    }
}

#[test]
fn reassemble_restores_index_order() {
    let frames = vec![
        IndexedFrame { index: 2, frame: solid_frame(1, 1, 2, 0, 0) },
        IndexedFrame { index: 0, frame: solid_frame(1, 1, 0, 0, 0) },
        IndexedFrame { index: 1, frame: solid_frame(1, 1, 1, 0, 0) },
    ];
    let ordered = reassemble(frames);
    assert_eq!(ordered.len(), 3);
    for (i, f) in ordered.iter().enumerate() {
        assert_eq!(f.index, i);
        assert_eq!(f.frame.data[0], i as u8);
    }
}

#[test]
fn collect_results_keeps_order_and_first_error_wins() {
    let ok = |i: usize| Ok(IndexedFrame { index: i, frame: solid_frame(1, 1, i as u8, 0, 0) });
    let all_ok = vec![ok(0), ok(1), ok(2)];
    let collected = collect_transform_results(all_ok).expect("all tasks succeeded");
    assert_eq!(collected.len(), 3);
    assert_eq!(collected[1].frame.data[0], 1);

    let with_errors = vec![
        ok(0),
        Err(TranscodeError::Transform),
        Err(TranscodeError::SinkWrite),
    ];
    assert_eq!(collect_transform_results(with_errors), Err(TranscodeError::Transform));
}

#[test]
fn transform_keeps_index_and_output_resolution() {
    let job = test_job(20, 20, 2);
    let atlas = test_atlas();
    let input = IndexedFrame { index: 7, frame: solid_frame(4, 4, 50, 50, 50) };
    let out = process_single_frame(input, &job, &atlas).expect("well-formed frame transforms");
    assert_eq!(out.index, 7);
    assert_eq!(out.frame.width, 20);
    assert_eq!(out.frame.height, 20);
    assert_eq!(out.frame.data.len(), 3 * 20 * 20);
}

#[test]
fn transform_applies_documented_luminance() {
    // A 1x1 frame resizes to a 1x1 grid, so the single glyph is decided by
    // luma = (2126*100 + 7152*50 + 722*200) / 10000 = 71, and
    // floor(71 * 9 / 255) = 2 picks '#', drawn with ink level 102.
    let job = test_job(20, 20, 1);
    let atlas = test_atlas();
    let input = IndexedFrame { index: 0, frame: solid_frame(1, 1, 100, 50, 200) };
    let out = process_single_frame(input, &job, &atlas).expect("well-formed frame transforms");
    let base = 3 * (12 * 20 + 10);
    assert_eq!(&out.frame.data[base..base + 3], &[102, 102, 102]);
}

#[test]
fn transform_twice_is_identical() {
    let job = test_job(24, 24, 3);
    let atlas = test_atlas();
    let make = || IndexedFrame { index: 0, frame: solid_frame(5, 4, 13, 200, 77) };
    let once = process_single_frame(make(), &job, &atlas).expect("well-formed frame transforms");
    let twice = process_single_frame(make(), &job, &atlas).expect("well-formed frame transforms");
    assert_eq!(once.index, twice.index);
    assert_eq!(once.frame.width, twice.frame.width);
    assert_eq!(once.frame.height, twice.frame.height);
    assert_eq!(once.frame.data, twice.frame.data);
}

#[test]
fn malformed_frame_fails_transform_task() {
    let job = test_job(20, 20, 2);
    let atlas = test_atlas();
    let bad = IndexedFrame { index: 0, frame: RasterFrame { width: 2, height: 2, data: vec![0; 5] } };
    assert_eq!(process_single_frame(bad, &job, &atlas), Err(TranscodeError::Transform));
}

#[test]
fn fatal_error_propagates_and_nothing_reaches_the_sink() {
    let job = test_job(20, 20, 2);
    let atlas = test_atlas();
    let mut sampled = Vec::new();
    for i in 0..4usize {
        let frame = if i == 2 {
            // one task is forced to fail: its frame's buffer is truncated
            RasterFrame { width: 2, height: 2, data: vec![0; 5] }
        } else {
            solid_frame(2, 2, 40, 40, 40)
        };
        sampled.push(IndexedFrame { index: i, frame });
    }
    let mut sink: Vec<RasterFrame> = Vec::new();
    let mut finalized = false;
    match transcode_frames(sampled, &job, &atlas) {
        Ok(frames) => {
            for f in frames {
                sink.push(f.frame);
            }
            finalized = true;
        }
        Err(e) => {
            assert_eq!(e, TranscodeError::Transform);
        }
    }
    assert!(sink.is_empty());
    assert!(!finalized);
}

#[test]
fn transcode_output_covers_indices_without_gaps() {
    let job = test_job(20, 20, 2);
    let atlas = test_atlas();
    let mut sampled = Vec::new();
    for i in 0..5usize {
        sampled.push(IndexedFrame { index: i, frame: solid_frame(3, 3, (i * 40) as u8, 0, 0) });
    }
    let out = transcode_frames(sampled, &job, &atlas).expect("all tasks succeed");
    assert_eq!(out.len(), 5);
    let indices: Vec<usize> = out.iter().map(|f| f.index).collect();
    assert_eq!(indices, vec![0, 1, 2, 3, 4]);
}

#[test]
fn transcode_twice_is_byte_identical() {
    let job = test_job(32, 24, 4);
    let atlas = test_atlas();
    let make = || {
        let mut sampled = Vec::new();
        for i in 0..6usize {
            sampled.push(IndexedFrame {
                index: i,
                frame: solid_frame(6, 5, (i * 31) as u8, (i * 17) as u8, 200),
            });
        }
        sampled
    };
    let first = transcode_frames(make(), &job, &atlas).expect("all tasks succeed");
    let second = transcode_frames(make(), &job, &atlas).expect("all tasks succeed");
    assert_eq!(first.len(), second.len());
    for (a, b) in first.iter().zip(second.iter()) {
        assert_eq!(a.index, b.index);
        assert_eq!(a.frame.data, b.frame.data);
    }
}

#[test]
fn end_to_end_synthetic_source() {
    // A 2-second, 30 fps, 64x64 source: 60 decoded frames. With a target of
    // 10 fps the interval is 3, so frames 0, 3, ..., 57 are kept: 20 frames,
    // transformed and written in index order.
    let interval = compute_frame_interval(30_000, 10_000) as usize;
    assert_eq!(interval, 3);
    let mut sampler = FrameSampler::new(interval);
    for k in 0..60usize {
        let frame = solid_frame(64, 64, (k * 4) as u8, (k * 4) as u8, (k * 4) as u8);
        sampler.offer(frame);
    }
    let sampled = sampler.into_frames();
    assert_eq!(sampled.len(), 20);

    let job = test_job(64, 64, 20);
    let atlas = test_atlas();
    let transformed = transcode_frames(sampled, &job, &atlas).expect("all tasks succeed");
    assert_eq!(transformed.len(), 20);

    let mut sink: Vec<(usize, RasterFrame)> = Vec::new();
    for f in transformed {
        sink.push((f.index, f.frame));
    }
    assert_eq!(sink.len(), 20);
    for (i, (idx, frame)) in sink.iter().enumerate() {
        assert_eq!(*idx, i);
        assert_eq!(frame.width, 64);
        assert_eq!(frame.height, 64);
    }
}
