use hydro::button::Level;
use hydro::light::{Light, LightHours, UnsyncPolicy, WallClock};

fn ranges_schedule() -> LightHours {
    LightHours::from_ranges(&vec![(0, 11), (20, 23)])
}

#[test]
fn active_matches_range_membership() {
    let hours = ranges_schedule();
    for h in 0u8..=23 {
        let expected = h <= 11 || (20..=23).contains(&h);
        assert_eq!(hours.active(h), expected, "hour {h}");
    }
}

#[test]
fn active_matches_explicit_membership() {
    let hours = LightHours(vec![3, 7, 21]);
    for h in 0u8..=23 {
        assert_eq!(hours.active(h), h == 3 || h == 7 || h == 21);
    }
}

#[test]
fn empty_schedule_never_active() {
    let hours = LightHours::default();
    for h in 0u8..=23 {
        assert!(!hours.active(h));
    }
}

#[test]
fn empty_range_adds_nothing() {
    let hours = LightHours::from_ranges(&vec![(9, 5)]);
    for h in 0u8..=23 {
        assert!(!hours.active(h));
    }
}

#[test]
fn unsynchronized_clock_drives_safe_off_and_retries_fast() {
    let light = Light::new(ranges_schedule());
    let step = light.evaluate(WallClock { year: 1970, hour: 12 });
    assert_eq!(step.drive, Some(Level::Low));
    assert_eq!(step.sleep_secs, 1);
    // Still unsynchronized on the next reading: same decision, repeatedly.
    let step = light.evaluate(WallClock { year: 1970, hour: 13 });
    assert_eq!(step.drive, Some(Level::Low));
    assert_eq!(step.sleep_secs, 1);
}

#[test]
fn unsynchronized_clock_leave_unchanged_policy() {
    let light = Light::new(ranges_schedule()).set_unsync_policy(UnsyncPolicy::LeaveUnchanged);
    let step = light.evaluate(WallClock { year: 1970, hour: 12 });
    assert_eq!(step.drive, None);
    assert_eq!(step.sleep_secs, 1);
}

#[test]
fn synchronized_clock_follows_schedule() {
    let light = Light::new(ranges_schedule());
    let step = light.evaluate(WallClock { year: 2024, hour: 8 });
    assert_eq!(step.drive, Some(Level::High));
    assert_eq!(step.sleep_secs, 3600);
    let step = light.evaluate(WallClock { year: 2024, hour: 15 });
    assert_eq!(step.drive, Some(Level::Low));
    assert_eq!(step.sleep_secs, 3600);
}

#[test]
fn schedule_replaced_between_evaluations_is_used_next() {
    let mut light = Light::new(ranges_schedule());
    let step = light.evaluate(WallClock { year: 2024, hour: 8 });
    assert_eq!(step.drive, Some(Level::High));
    // Replacement lands while the loop would be sleeping.
    light.set_hours(LightHours(vec![15]));
    let step = light.evaluate(WallClock { year: 2024, hour: 8 });
    assert_eq!(step.drive, Some(Level::Low));
    let step = light.evaluate(WallClock { year: 2024, hour: 15 });
    assert_eq!(step.drive, Some(Level::High));
}

#[test]
fn is_synchronized_is_the_year_sentinel() {
    assert!(!WallClock { year: 1970, hour: 0 }.is_synchronized());
    assert!(WallClock { year: 1969, hour: 0 }.is_synchronized());
    assert!(WallClock { year: 2024, hour: 0 }.is_synchronized());
}

#[test]
fn tick_reads_the_real_clock_and_decides() {
    let light = Light::new(ranges_schedule());
    let step = light.tick();
    // Whatever the machine's clock says, the decision is one of the two
    // shapes the scheduler can take.
    if step.sleep_secs == 1 {
        assert_eq!(step.drive, Some(Level::Low));
    } else {
        assert_eq!(step.sleep_secs, 3600);
        assert!(step.drive == Some(Level::High) || step.drive == Some(Level::Low));
    }
}
