use std::f32::consts::{PI, TAU};
use tsumiki::bits::{F32Bits, Vec3Bits};
use tsumiki::protocol::PlayerSave;
use tsumiki::remote::{hue_for_id, InterpBuffer, Pose, RemotePlayers};

fn nanos(seconds: f64) -> i64 {
    (seconds * 1e9).round() as i64
}

fn state(x: f32, yaw: f32) -> PlayerSave {
    PlayerSave {
        pos: Vec3Bits {
            x: F32Bits(x.to_bits()),
            y: F32Bits(0),
            z: F32Bits(0),
        },
        yaw: F32Bits(yaw.to_bits()),
        pitch: F32Bits(0),
    }
}

/// Position along x and yaw of a pose.
fn shown(pose: Option<Pose>) -> Option<(f32, f32)> {
    let x = |s: PlayerSave| f32::from_bits(s.pos.x.0);
    let yaw = |s: PlayerSave| f32::from_bits(s.yaw.0);
    match pose? {
        Pose::At(s) => Some((x(s), yaw(s))),
        Pose::Between { from, to, elapsed, span } => {
            let t = (elapsed as f64 / span as f64) as f32;
            let mut d = (yaw(to) - yaw(from)) % TAU;
            if d > PI {
                d -= TAU;
            } else if d < -PI {
                d += TAU;
            }
            Some((x(from) + (x(to) - x(from)) * t, yaw(from) + d * t))
        }
    }
}

fn sample(buffer: &InterpBuffer, t: f64) -> Option<(f32, f32)> {
    shown(buffer.sample(nanos(t)))
}

#[test]
fn empty_buffer_samples_to_none() {
    assert_eq!(sample(&InterpBuffer::new(), 0.0), None);
}

#[test]
fn single_sample_clamps_regardless_of_render_time() {
    let mut buffer = InterpBuffer::new();
    buffer.push(nanos(1.0), state(5.0, 0.0));
    assert_eq!(sample(&buffer, 0.0), Some((5.0, 0.0)));
    assert_eq!(sample(&buffer, 1.0), Some((5.0, 0.0)));
    assert_eq!(sample(&buffer, 100.0), Some((5.0, 0.0)));
}

#[test]
fn exact_midpoint_lerps_position() {
    let mut buffer = InterpBuffer::new();
    buffer.push(nanos(0.0), state(0.0, 0.0));
    buffer.push(nanos(1.0), state(10.0, 0.0));
    assert_eq!(sample(&buffer, 0.5).unwrap().0, 5.0);
    assert_eq!(
        buffer.sample(nanos(0.5)),
        Some(Pose::Between {
            from: state(0.0, 0.0),
            to: state(10.0, 0.0),
            elapsed: 500_000_000,
            span: 1_000_000_000,
        })
    );
}

#[test]
fn yaw_wraps_the_short_way_across_plus_minus_pi() {
    let mut buffer = InterpBuffer::new();
    buffer.push(nanos(0.0), state(0.0, 170f32.to_radians()));
    buffer.push(nanos(1.0), state(0.0, (-170f32).to_radians()));
    let (_, yaw) = sample(&buffer, 0.5).unwrap();
    let expected = 180f32.to_radians();
    let diff = (yaw - expected).rem_euclid(2.0 * PI);
    let diff = diff.min(2.0 * PI - diff);
    assert!(diff < 1e-4, "yaw = {yaw}, expected ~{expected} (or -{expected})");
}

#[test]
fn extrapolation_past_newest_sample_is_clamped_not_overshot() {
    let mut buffer = InterpBuffer::new();
    buffer.push(nanos(0.0), state(0.0, 0.0));
    buffer.push(nanos(1.0), state(10.0, 0.0));
    assert_eq!(sample(&buffer, 5.0).unwrap().0, 10.0);
}

#[test]
fn render_time_before_oldest_sample_clamps_to_oldest() {
    let mut buffer = InterpBuffer::new();
    buffer.push(nanos(2.0), state(7.0, 0.0));
    buffer.push(nanos(3.0), state(9.0, 0.0));
    assert_eq!(sample(&buffer, 0.0).unwrap().0, 7.0);
}

#[test]
fn out_of_order_sample_is_rejected() {
    let mut buffer = InterpBuffer::new();
    buffer.push(nanos(1.0), state(10.0, 0.0));
    buffer.push(nanos(0.5), state(999.0, 0.0));
    assert_eq!(sample(&buffer, 0.0), Some((10.0, 0.0)));
}

#[test]
fn duplicate_timestamp_is_rejected() {
    let mut buffer = InterpBuffer::new();
    buffer.push(nanos(1.0), state(10.0, 0.0));
    buffer.push(nanos(1.0), state(999.0, 0.0));
    assert_eq!(sample(&buffer, 1.0), Some((10.0, 0.0)));
}

#[test]
fn large_gap_snaps_instead_of_interpolating() {
    let mut buffer = InterpBuffer::new();
    buffer.push(nanos(0.0), state(0.0, 0.0));
    buffer.push(nanos(0.1), state(1.0, 0.0));
    buffer.push(nanos(5.0), state(100.0, 0.0));
    assert_eq!(
        sample(&buffer, 0.05).unwrap().0,
        100.0,
        "should snap to the post-gap sample, not interpolate pre-gap history"
    );
}

#[test]
fn a_gap_of_exactly_one_second_is_still_crossed() {
    let mut buffer = InterpBuffer::new();
    buffer.push(0, state(0.0, 0.0));
    buffer.push(1_000_000_000, state(1.0, 0.0));
    assert_eq!(buffer.len(), 2);
    buffer.push(2_000_000_001, state(2.0, 0.0));
    assert_eq!(buffer.len(), 1);
}

#[test]
fn old_samples_are_pruned() {
    let mut buffer = InterpBuffer::new();
    let mut t = 0.0f64;
    while t <= 6.0 {
        buffer.push(nanos(t), state(t as f32, 0.0));
        t += 0.1;
    }
    assert!(
        buffer.len() < 55,
        "expected samples older than five seconds pruned, got {} samples",
        buffer.len()
    );
}

#[test]
fn hue_for_id_is_deterministic() {
    assert_eq!(hue_for_id(42), hue_for_id(42));
}

#[test]
fn hue_for_id_scatters_sequential_ids() {
    let hues: Vec<u64> = (1..=5).map(hue_for_id).collect();
    let mut sorted = hues.clone();
    sorted.sort();
    sorted.dedup();
    assert_eq!(sorted.len(), hues.len(), "expected distinct hues: {hues:?}");
}

#[test]
fn hue_is_the_mixed_id_modulo_a_circle() {
    // The mixing function applied to 0 gives 0xE220A8397B1DCDAF.
    assert_eq!(hue_for_id(0), 0xE220_A839_7B1D_CDAF % 360);
}

#[test]
fn players_come_move_and_go() {
    let mut players = RemotePlayers::new();
    assert!(!players.join(0, 5, state(1.0, 0.0)));
    players.push_sample(100, 5, state(2.0, 0.0));
    players.push_sample(100, 6, state(9.0, 0.0));
    assert!(!players.contains(6));
    assert_eq!(shown(players.pose(5, 1_000)), Some((2.0, 0.0)));
    assert_eq!(players.pose(6, 1_000), None);
    assert!(players.join(200, 5, state(7.0, 0.0)), "the earlier one is replaced");
    assert_eq!(shown(players.pose(5, 0)), Some((7.0, 0.0)));
    assert!(players.leave(5));
    assert!(!players.leave(5));
    players.join(0, 1, state(0.0, 0.0));
    players.clear();
    assert!(!players.contains(1));
}
