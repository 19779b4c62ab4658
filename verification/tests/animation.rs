use anim::animation::{Eval, KeyframeV3};
use anim::samples::{Frame, SampleMap};
use nalgebra_glm::Vec3;

// The downstream consumer of an `Eval::Tween` outcome: linear tweening via
// the point-slope formula, y = m(x - x1) + y1 with m = (y2 - y1)/(x2 - x1).
fn linear_tween((x1, y1): (f32, f32), (x2, y2): (f32, f32), x: f32) -> f32 {
    let m = (y2 - y1) / (x2 - x1);
    m * (x - x1) + y1
}

// The value a Vec3 channel takes at a frame: the channel picks the samples,
// the caller tweens them.
fn value_at(kf: &mut KeyframeV3<Vec3>, frame: Frame) -> Vec3 {
    match kf.at(frame) {
        Eval::Value(v) => v,
        Eval::Tween(pf, pv, nf, nv) => {
            let frame = frame as f32;
            let pf = pf as f32;
            let nf = nf as f32;
            let x = linear_tween((pf, pv.x), (nf, nv.x), frame);
            let y = linear_tween((pf, pv.y), (nf, nv.y), frame);
            let z = linear_tween((pf, pv.z), (nf, nv.z), frame);
            Vec3::new(x, y, z)
        }
    }
}

// Does a 'close enough' approximation of two f32 values
fn feq(n1: f32, n2: f32) -> bool {
    n1.max(n2) - n1.min(n2) < 0.00005
}

// Does a 'close enough' approximation of two Vec3 values
fn veq(v1: Vec3, v2: Vec3) -> bool {
    feq(v1.x, v2.x) && feq(v1.y, v2.y) && feq(v1.z, v2.z)
}

#[test]
fn keyframev3_frames_test() {
    let mut kf = KeyframeV3::new(Vec3::zeros());
    let mut frames: Vec<Frame> = Vec::new();

    // Should have no frames
    assert!(kf.frames().is_none());

    // Insert 1 value
    kf.set_at(10, Vec3::zeros());

    // Should have 1 frame
    frames.extend(kf.frames().unwrap());
    assert_eq!(frames.len(), 1);
    assert_eq!(frames[0], 10);

    // Insert 1 more value
    kf.set_at(20, Vec3::zeros());

    // Should have 2 frames
    frames.clear();
    frames.extend(kf.frames().unwrap());
    assert_eq!(frames.len(), 2);
    assert_eq!(frames[0], 10);
    assert_eq!(frames[1], 20);
}

#[test]
fn keyframev3_at_test() {
    let mut kf = KeyframeV3::new(Vec3::zeros());

    assert!(veq(value_at(&mut kf, 00), Vec3::zeros()));
    assert!(veq(value_at(&mut kf, 10), Vec3::zeros()));
    assert!(veq(value_at(&mut kf, 20), Vec3::zeros()));

    kf.set_at(10, Vec3::new(1.0, 2.0, 3.0));

    assert!(veq(value_at(&mut kf, 00), Vec3::new(1.0, 2.0, 3.0)));
    assert!(veq(value_at(&mut kf, 10), Vec3::new(1.0, 2.0, 3.0)));
    assert!(veq(value_at(&mut kf, 20), Vec3::new(1.0, 2.0, 3.0)));

    kf.set_at(10, Vec3::new(4.0, 5.0, 6.0));

    assert!(veq(value_at(&mut kf, 00), Vec3::new(4.0, 5.0, 6.0)));
    assert!(veq(value_at(&mut kf, 10), Vec3::new(4.0, 5.0, 6.0)));
    assert!(veq(value_at(&mut kf, 20), Vec3::new(4.0, 5.0, 6.0)));

    kf.set_at(20, Vec3::new(5.0, 6.0, 7.0));

    assert!(veq(value_at(&mut kf, 05), Vec3::new(4.0, 5.0, 6.0)));
    assert!(veq(value_at(&mut kf, 10), Vec3::new(4.0, 5.0, 6.0)));
    assert!(veq(value_at(&mut kf, 15), Vec3::new(4.5, 5.5, 6.5)));
    assert!(veq(value_at(&mut kf, 20), Vec3::new(5.0, 6.0, 7.0)));
    assert!(veq(value_at(&mut kf, 25), Vec3::new(5.0, 6.0, 7.0)));

    kf.set_at(30, Vec3::new(8.0, 3.0, 0.0));

    assert!(veq(value_at(&mut kf, 05), Vec3::new(4.0, 5.0, 6.0)));
    assert!(veq(value_at(&mut kf, 10), Vec3::new(4.0, 5.0, 6.0)));
    assert!(veq(value_at(&mut kf, 15), Vec3::new(4.5, 5.5, 6.5)));
    assert!(veq(value_at(&mut kf, 20), Vec3::new(5.0, 6.0, 7.0)));
    assert!(veq(value_at(&mut kf, 25), Vec3::new(6.5, 4.5, 3.5)));
    assert!(veq(value_at(&mut kf, 30), Vec3::new(8.0, 3.0, 0.0)));
    assert!(veq(value_at(&mut kf, 35), Vec3::new(8.0, 3.0, 0.0)));

    kf.set_at(20, Vec3::new(2.0, 3.0, 4.0));

    assert!(veq(value_at(&mut kf, 20), Vec3::new(2.0, 3.0, 4.0)));
}

// A constant channel returns its constant at every frame and reports no
// keyframed frames at all.
#[test]
fn constant_channel_every_frame() {
    let mut kf = KeyframeV3::new(Vec3::new(-2.5, 0.25, 9.0));
    for t in [0usize, 1, 17, 100, 100_000] {
        assert_eq!(value_at(&mut kf, t), Vec3::new(-2.5, 0.25, 9.0));
    }
    assert!(kf.frames().is_none());
}

// Immediately after set_at(t, v), at(t) is exactly v: no tweening drift at a
// sample point.
#[test]
fn exact_at_sample_point() {
    let mut kf = KeyframeV3::new(Vec3::zeros());
    kf.set_at(7, Vec3::new(0.1, 0.2, 0.3));
    kf.set_at(13, Vec3::new(123.456, -7.89, 0.001));
    assert_eq!(value_at(&mut kf, 13), Vec3::new(123.456, -7.89, 0.001));
    assert_eq!(value_at(&mut kf, 7), Vec3::new(0.1, 0.2, 0.3));
}

// Two evaluations at the same frame with no edit in between are
// bit-identical, whether answered from the cache or not.
#[test]
fn at_is_idempotent() {
    let mut kf = KeyframeV3::new(Vec3::zeros());
    kf.set_at(10, Vec3::new(1.0, 0.1, -3.0));
    kf.set_at(25, Vec3::new(-2.0, 7.3, 11.5));
    for t in [0usize, 10, 13, 21, 25, 40] {
        let first = value_at(&mut kf, t);
        let second = value_at(&mut kf, t);
        assert_eq!(first, second);
    }
}

// Between two samples the channel hands out exactly the surrounding pair,
// and tweening them follows the point-slope line exactly.
#[test]
fn tween_follows_the_line() {
    let mut kf = KeyframeV3::new(Vec3::zeros());
    kf.set_at(10, Vec3::new(0.0, 0.0, 0.0));
    kf.set_at(20, Vec3::new(10.0, 20.0, 40.0));

    match kf.at(12) {
        Eval::Tween(pf, pv, nf, nv) => {
            assert_eq!(pf, 10);
            assert_eq!(nf, 20);
            assert_eq!(pv, Vec3::new(0.0, 0.0, 0.0));
            assert_eq!(nv, Vec3::new(10.0, 20.0, 40.0));
        }
        Eval::Value(_) => panic!("a frame between two samples must be tweened"),
    }

    assert_eq!(value_at(&mut kf, 12), Vec3::new(2.0, 4.0, 8.0));
    assert_eq!(value_at(&mut kf, 15), Vec3::new(5.0, 10.0, 20.0));
    assert_eq!(value_at(&mut kf, 18), Vec3::new(8.0, 16.0, 32.0));
}

// Before the first sample and after the last one the channel is flat.
#[test]
fn flat_extrapolation_both_sides() {
    let mut kf = KeyframeV3::new(Vec3::zeros());
    kf.set_at(10, Vec3::new(1.0, 2.0, 3.0));
    kf.set_at(20, Vec3::new(4.0, 5.0, 6.0));
    for t in [0usize, 5, 9, 10] {
        assert_eq!(value_at(&mut kf, t), Vec3::new(1.0, 2.0, 3.0));
    }
    for t in [20usize, 21, 50, 1000] {
        assert_eq!(value_at(&mut kf, t), Vec3::new(4.0, 5.0, 6.0));
    }
}

// Setting the same frame twice keeps one sample there, holding the second
// value; the number of frames does not change at the second set.
#[test]
fn overwrite_keeps_one_sample() {
    let mut kf = KeyframeV3::new(Vec3::zeros());
    kf.set_at(10, Vec3::new(1.0, 1.0, 1.0));
    kf.set_at(10, Vec3::new(2.0, 2.0, 2.0));
    let frames: Vec<Frame> = kf.frames().unwrap();
    assert_eq!(frames, vec![10]);
    assert_eq!(value_at(&mut kf, 10), Vec3::new(2.0, 2.0, 2.0));
}

// An edit at any frame invalidates the cache: a later evaluation at an
// unrelated frame recomputes the correct value under the new samples.
#[test]
fn edits_do_not_leave_stale_caches() {
    let mut kf = KeyframeV3::new(Vec3::zeros());
    kf.set_at(10, Vec3::new(0.0, 0.0, 0.0));
    kf.set_at(20, Vec3::new(10.0, 10.0, 10.0));

    // Populate the cache at frame 15.
    assert_eq!(value_at(&mut kf, 15), Vec3::new(5.0, 5.0, 5.0));

    // Edit a different frame; the old result for 15 no longer holds.
    kf.set_at(20, Vec3::new(30.0, 30.0, 30.0));
    assert_eq!(value_at(&mut kf, 15), Vec3::new(15.0, 15.0, 15.0));

    // Edit a frame outside the pair as well; 15 must still be recomputed.
    assert_eq!(value_at(&mut kf, 15), Vec3::new(15.0, 15.0, 15.0));
    kf.set_at(0, Vec3::new(-10.0, -10.0, -10.0));
    assert_eq!(value_at(&mut kf, 15), Vec3::new(15.0, 15.0, 15.0));
}

// frames() distinguishes "no sequence at all" from an empty sequence: a
// fresh channel has none, and one set_at later it has exactly one frame.
#[test]
fn frames_absent_until_first_set() {
    let mut kf = KeyframeV3::new(Vec3::new(1.0, 1.0, 1.0));
    assert!(kf.frames().is_none());
    kf.set_at(42, Vec3::zeros());
    let frames: Vec<Frame> = kf.frames().unwrap();
    assert_eq!(frames, vec![42]);
}

// The reference scenario: flat both ways from a single sample, then exact
// midpoint tweening once a second sample makes a ramp.
#[test]
fn single_then_ramp_midpoint() {
    let mut kf = KeyframeV3::new(Vec3::zeros());
    kf.set_at(10, Vec3::new(1.0, 2.0, 3.0));
    assert_eq!(value_at(&mut kf, 0), Vec3::new(1.0, 2.0, 3.0));
    assert_eq!(value_at(&mut kf, 10), Vec3::new(1.0, 2.0, 3.0));
    assert_eq!(value_at(&mut kf, 20), Vec3::new(1.0, 2.0, 3.0));

    kf.set_at(20, Vec3::new(5.0, 6.0, 7.0));
    assert_eq!(value_at(&mut kf, 15), Vec3::new(3.0, 4.0, 5.0));
}

// The ordered sample store on its own: ascending keys whatever the insertion
// order, exact lookups, and in-place overwrites.
#[test]
fn sample_map_orders_and_overwrites() {
    let mut m: SampleMap<u32> = SampleMap::new();
    assert_eq!(m.len(), 0);
    m.insert(20, 5);
    m.insert(10, 1);
    m.insert(30, 9);
    assert_eq!(m.keys(), vec![10, 20, 30]);
    assert_eq!(m.get(10), Some(1));
    assert_eq!(m.get(20), Some(5));
    assert_eq!(m.get(30), Some(9));
    assert_eq!(m.get(15), None);
    assert_eq!(m.get(0), None);
    assert_eq!(m.get(31), None);

    m.insert(20, 7);
    assert_eq!(m.len(), 3);
    assert_eq!(m.get(20), Some(7));
    assert_eq!(m.entry(1), (20, 7));
    assert_eq!(m.first_geq_index(11), 1);
    assert_eq!(m.first_geq_index(10), 0);
    assert_eq!(m.first_geq_index(99), 3);
}
