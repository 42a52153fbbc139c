use engine_core::{
    SpeedRamp, TimeRange, TimeRemapper, Timestamp, SPEED_MAX, SPEED_MIN, SPEED_UNIT,
};

fn range(start: u64, end: u64) -> TimeRange {
    TimeRange::new(Timestamp::from_micros(start), Timestamp::from_micros(end))
}

/// A small generator of numbers that look random and are the same every run.
struct Dice(u64);

impl Dice {
    fn roll(&mut self, below: u64) -> u64 {
        self.0 = self.0.wrapping_mul(6_364_136_223_846_793_005).wrapping_add(1_442_695_040_888_963_407);
        (self.0 >> 33) % below
    }
}

/// Remappers with cuts and ramps anywhere, overlapping or not.
fn any_remapper(dice: &mut Dice) -> TimeRemapper {
    let span = 1 + dice.roll(2_000);
    let cuts = (0..dice.roll(5))
        .map(|_| {
            let a = dice.roll(span);
            range(a, a + dice.roll(span / 2 + 1))
        })
        .collect();
    let ramps = (0..dice.roll(5))
        .map(|_| {
            let a = dice.roll(span);
            let speed = SPEED_MIN + dice.roll((SPEED_MAX - SPEED_MIN) as u64 + 1) as u32;
            SpeedRamp::new(range(a, a + dice.roll(span / 2 + 1)), speed)
        })
        .collect();
    let in_point = dice.roll(span);
    let out_point = in_point + dice.roll(span - in_point + 1);
    TimeRemapper::new(cuts, ramps, Timestamp::from_micros(in_point), Timestamp::from_micros(out_point))
}

#[test]
fn remap_is_monotonic_on_samples() {
    let mut dice = Dice(1);
    for _ in 0..300 {
        let remapper = any_remapper(&mut dice);
        let duration = remapper.export_duration().as_micros();
        let mut last = 0;
        for e in 0..=duration + 2 {
            let s = remapper.to_source_time(Timestamp::from_micros(e)).as_micros();
            assert!(s >= last, "export {} maps to {} after {}", e, s, last);
            assert!(s <= remapper.out_point().as_micros());
            last = s;
        }
    }
}

#[test]
fn remap_never_comes_to_rest_inside_a_cut() {
    let mut dice = Dice(2);
    for _ in 0..300 {
        let remapper = any_remapper(&mut dice);
        let duration = remapper.export_duration().as_micros();
        let out = remapper.out_point().as_micros();
        for e in 0..=duration {
            let s = remapper.to_source_time(Timestamp::from_micros(e));
            for cut in remapper.cuts() {
                if cut.contains(s) {
                    let at_start_after_slow_motion = cut.start == s
                        && s.as_micros() > 0
                        && remapper.speed_at(Timestamp::from_micros(s.as_micros() - 1)) < SPEED_UNIT;
                    assert!(s.as_micros() == out || at_start_after_slow_motion);
                }
            }
        }
    }
}

#[test]
fn cuts_are_excluded_without_slow_motion_before_them() {
    // Cuts inside the trim, every ramp at normal speed or faster.
    let mut dice = Dice(3);
    for _ in 0..300 {
        let span = 10 + dice.roll(2_000);
        let mut cuts = Vec::new();
        let mut at = 0;
        while at < span && cuts.len() < 4 {
            let start = at + dice.roll(span - at);
            let end = (start + 1 + dice.roll(span / 4 + 1)).min(span);
            if start < end {
                cuts.push(range(start, end));
            }
            at = end + 1;
        }
        let ramps = (0..dice.roll(4))
            .map(|_| {
                let a = dice.roll(span);
                let speed = SPEED_UNIT + dice.roll((SPEED_MAX - SPEED_UNIT) as u64 + 1) as u32;
                SpeedRamp::new(range(a, a + dice.roll(span / 2 + 1)), speed)
            })
            .collect();
        let remapper =
            TimeRemapper::new(cuts, ramps, Timestamp::from_micros(0), Timestamp::from_micros(span));
        let duration = remapper.export_duration().as_micros();
        for e in 0..=duration {
            let s = remapper.to_source_time(Timestamp::from_micros(e));
            assert!(!remapper.is_cut(s), "export {} maps into a cut at {}", e, s.as_micros());
        }
    }
}

#[test]
fn a_slowed_stretch_before_a_cut_can_end_on_the_cut() {
    let remapper = TimeRemapper::new(
        vec![range(10, 20)],
        vec![SpeedRamp::new(range(0, 10), SPEED_MIN)],
        Timestamp::from_micros(0),
        Timestamp::from_micros(30),
    );
    assert_eq!(remapper.export_duration().as_micros(), 50);
    let s = remapper.to_source_time(Timestamp::from_micros(39));
    assert_eq!(s.as_micros(), 10);
    assert!(remapper.is_cut(s));
    assert_eq!(remapper.to_source_time(Timestamp::from_micros(40)).as_micros(), 20);
}

#[test]
fn a_cut_across_the_out_point_leaves_the_out_point_in_the_cut() {
    let remapper = TimeRemapper::new(
        vec![range(5, 20)],
        vec![],
        Timestamp::from_micros(0),
        Timestamp::from_micros(10),
    );
    assert_eq!(remapper.export_duration().as_micros(), 5);
    for e in 0..5 {
        assert_eq!(remapper.to_source_time(Timestamp::from_micros(e)).as_micros(), e);
    }
    let s = remapper.to_source_time(Timestamp::from_micros(5));
    assert_eq!(s.as_micros(), 10);
    assert!(remapper.is_cut(s));
}

#[test]
fn single_ramp_duration_is_length_over_speed() {
    let mut dice = Dice(4);
    for _ in 0..2_000 {
        let d = dice.roll(10_000_000);
        let speed = SPEED_MIN + dice.roll((SPEED_MAX - SPEED_MIN) as u64 + 1) as u32;
        let remapper = TimeRemapper::new(
            vec![],
            vec![SpeedRamp::new(range(0, d), speed)],
            Timestamp::from_micros(0),
            Timestamp::from_micros(d),
        );
        let exact = (2 * d as u128 * SPEED_UNIT as u128 + speed as u128) / (2 * speed as u128);
        assert_eq!(remapper.export_duration().as_micros() as u128, exact);
        let rounded = (d as f64 / (speed as f64 / SPEED_UNIT as f64)).round();
        assert!((exact as f64 - rounded).abs() <= 1.0);
    }
    let three_halves = SpeedRamp::new(range(0, 3_000_000), 3 * SPEED_UNIT / 2);
    let remapper = TimeRemapper::new(
        vec![],
        vec![three_halves],
        Timestamp::from_micros(0),
        Timestamp::from_micros(3_000_000),
    );
    assert_eq!(remapper.export_duration().as_micros(), 2_000_000);
}

#[test]
fn export_duration_is_the_sum_of_its_pieces() {
    // Disjoint cuts and ramps, laid out one after the other.
    let mut dice = Dice(5);
    for _ in 0..500 {
        let in_point = dice.roll(100);
        let mut at = dice.roll(150);
        let mut cuts = Vec::new();
        let mut ramps = Vec::new();
        for _ in 0..dice.roll(7) {
            let start = at + dice.roll(50);
            let end = start + dice.roll(200);
            if dice.roll(2) == 0 {
                cuts.push(range(start, end));
            } else {
                let speed = SPEED_MIN + dice.roll((SPEED_MAX - SPEED_MIN) as u64 + 1) as u32;
                ramps.push(SpeedRamp::new(range(start, end), speed));
            }
            at = end;
        }
        let out_point = in_point + dice.roll(at + 100);
        let clipped = |r: &TimeRange| {
            let lo = r.start.as_micros().max(in_point);
            let hi = r.end.as_micros().min(out_point);
            hi.saturating_sub(lo)
        };
        let cut_time: u64 = cuts.iter().map(clipped).sum();
        let ramp_time: u64 = ramps.iter().map(|r| clipped(&r.range)).sum();
        let ramp_export: u64 = ramps
            .iter()
            .map(|r| {
                let part = range(0, clipped(&r.range));
                SpeedRamp::new(part, r.speed).export_duration()
            })
            .sum();
        let remapper = TimeRemapper::new(
            cuts.clone(),
            ramps.clone(),
            Timestamp::from_micros(in_point),
            Timestamp::from_micros(out_point),
        );
        assert_eq!(
            remapper.export_duration().as_micros(),
            (out_point - in_point) - cut_time - ramp_time + ramp_export
        );
    }
}

#[test]
fn partial_ramp_duration_is_before_plus_ramp_plus_after() {
    let remapper = TimeRemapper::new(
        vec![],
        vec![SpeedRamp::new(range(1_000, 4_000), 3 * SPEED_UNIT)],
        Timestamp::from_micros(0),
        Timestamp::from_micros(10_000),
    );
    assert_eq!(remapper.export_duration().as_micros(), 1_000 + 1_000 + 6_000);
}

#[test]
fn export_times_past_the_end_show_the_out_point() {
    let mut dice = Dice(6);
    for _ in 0..300 {
        let remapper = any_remapper(&mut dice);
        let duration = remapper.export_duration().as_micros();
        let out = remapper.out_point();
        for beyond in [1u64, 2, 3, 1_000, u64::MAX - duration] {
            assert_eq!(remapper.to_source_time(Timestamp::from_micros(duration + beyond)), out);
        }
    }
}

#[test]
fn fast_segments_that_round_to_nothing_are_passed_only_past_the_end() {
    // One microsecond at four times the speed takes no export time.
    let remapper = TimeRemapper::new(
        vec![],
        vec![SpeedRamp::new(range(0, 1), SPEED_MAX)],
        Timestamp::from_micros(0),
        Timestamp::from_micros(1),
    );
    assert_eq!(remapper.export_duration().as_micros(), 0);
    assert_eq!(remapper.to_source_time(Timestamp::from_micros(0)).as_micros(), 0);
    assert_eq!(remapper.to_source_time(Timestamp::from_micros(1)).as_micros(), 1);
}
