use daytape::time::{Time, TimeSlot};

#[test]
fn new_keeps_fields() {
    let t = Time::new(9, 30);
    assert_eq!(t.hour, 9);
    assert_eq!(t.min, 30);
}

#[test]
fn hours_and_mins_constructors() {
    assert_eq!(Time::hours(1), Time::new(1, 0));
    assert_eq!(Time::mins(60), Time::new(1, 0));
    assert_eq!(Time::mins(75), Time::new(1, 15));
    assert_eq!(Time::mins(0), Time::new(0, 0));
}

#[test]
fn add_carries_minutes() {
    let t = Time::new(9, 50).add(Time::mins(20));
    assert_eq!(t, Time::new(10, 10));
}

#[test]
fn add_wraps_past_midnight() {
    let t = Time::new(23, 50).add(Time::mins(20));
    assert_eq!(t, Time::new(0, 10));
}

#[test]
fn add_sub_inverse_samples() {
    let samples = [
        (Time::new(0, 0), Time::new(0, 5)),
        (Time::new(23, 55), Time::new(0, 10)),
        (Time::new(12, 34), Time::new(11, 26)),
        (Time::new(7, 0), Time::new(18, 55)),
    ];
    for (t1, t2) in samples {
        assert_eq!(t1.add(t2).sub(t2), t1);
    }
}

#[test]
fn sixty_minutes_is_one_hour() {
    for hour in 0..24 {
        let t = Time::new(hour, 17);
        assert_eq!(t.add(Time::mins(60)), t.add(Time::hours(1)));
    }
}

#[test]
fn sub_wraps_instead_of_underflowing() {
    let t = Time::new(0, 0).sub(Time::new(0, 5));
    assert_eq!(t, Time::new(23, 55));
    assert!(t.hour < 24);
    assert!(t.min < 60);
}

#[test]
fn sub_borrows_minutes() {
    assert_eq!(Time::new(10, 5).sub(Time::mins(10)), Time::new(9, 55));
}

#[test]
fn to_grid_is_column_and_row() {
    let t = Time::new(9, 25);
    let [x, y] = t.to_grid();
    assert_eq!(x, 5);
    assert_eq!(y, 9);
    let [x0, y0] = Time::new(0, 4).to_grid();
    assert_eq!(x0, 0);
    assert_eq!(y0, 0);
}

#[test]
fn in_mins_counts_from_midnight() {
    assert_eq!(Time::new(7, 0).in_mins(), 420);
    assert_eq!(Time::new(23, 59).in_mins(), 1439);
}

#[test]
fn clamp_into_window() {
    let lo = Time::new(7, 0);
    let hi = Time::new(18, 55);
    assert_eq!(Time::new(6, 55).clamp(lo, hi), lo);
    assert_eq!(Time::new(19, 0).clamp(lo, hi), hi);
    assert_eq!(Time::new(12, 0).clamp(lo, hi), Time::new(12, 0));
}

#[test]
fn slot_end_adds_duration() {
    let slot = TimeSlot { start: Time::new(9, 0), duration: 30 };
    assert_eq!(slot.end(), Time::new(9, 30));
}

#[test]
fn slot_end_wraps_past_midnight() {
    let slot = TimeSlot { start: Time::new(23, 50), duration: 20 };
    assert_eq!(slot.end(), Time::new(0, 10));
}

#[test]
fn contains_is_half_open() {
    let slot = TimeSlot { start: Time::new(9, 0), duration: 30 };
    assert!(slot.contains(Time::new(9, 29)));
    assert!(!slot.contains(Time::new(9, 30)));
    assert!(!slot.contains(Time::new(8, 59)));
    assert!(slot.contains(Time::new(9, 0)));
}

#[test]
fn wrapped_slot_contains_nothing_after_midnight() {
    let slot = TimeSlot { start: Time::new(23, 50), duration: 20 };
    assert!(!slot.contains(Time::new(23, 55)));
    assert!(!slot.contains(Time::new(0, 5)));
}
