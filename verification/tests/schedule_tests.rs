use daytape::schedule::{day_offset, Date, DayState, Schedule, Task};
use daytape::time::{Time, TimeSlot};

fn task(hour: usize, min: usize, duration: usize, label: &str) -> Task {
    Task {
        slot: TimeSlot { start: Time::new(hour, min), duration },
        label: label.chars().collect(),
    }
}

fn day(date: Date, tasks: Vec<Task>) -> DayState {
    DayState { date, tasks }
}

#[test]
fn date_ordering_is_lexicographic() {
    let a = Date::new(2024, 5, 31);
    let b = Date::new(2024, 6, 1);
    let c = Date::new(2025, 1, 1);
    assert!(a.le(&b));
    assert!(!b.le(&a));
    assert!(b.le(&c));
    assert!(a.le(&a));
}

#[test]
fn find_containing_picks_first_task() {
    let d = day(
        Date::new(2024, 6, 1),
        vec![task(9, 0, 30, "first"), task(9, 15, 30, "second")],
    );
    assert_eq!(d.find_containing(Time::new(9, 20)), Some(0));
    assert_eq!(d.find_containing(Time::new(9, 40)), Some(1));
    assert_eq!(d.find_containing(Time::new(10, 0)), None);
}

#[test]
fn get_day_finds_entry() {
    let today = Date::new(2024, 6, 1);
    let other = Date::new(2024, 6, 2);
    let mut schedule = Schedule::new();
    schedule.dates.push(day(today, vec![task(9, 0, 15, "x")]));
    assert!(schedule.get_day(&today).is_some());
    assert_eq!(schedule.get_day(&today).unwrap().tasks.len(), 1);
    assert!(schedule.get_day(&other).is_none());
}

#[test]
fn upsert_and_prune_drops_past_days() {
    let yesterday = Date::new(2024, 5, 31);
    let today = Date::new(2024, 6, 1);
    let tomorrow = Date::new(2024, 6, 2);
    let mut schedule = Schedule::new();
    schedule.dates.push(day(yesterday, vec![]));
    schedule.dates.push(day(today, vec![task(9, 0, 15, "old")]));
    schedule.dates.push(day(tomorrow, vec![task(10, 0, 15, "later")]));

    let fresh = day(today, vec![task(11, 0, 20, "new")]);
    schedule.upsert_and_prune(today, fresh.clone(), today);

    assert!(schedule.get_day(&yesterday).is_none());
    let entries_for_today: Vec<&DayState> = schedule
        .dates
        .iter()
        .filter(|ds| ds.date == today)
        .collect();
    assert_eq!(entries_for_today.len(), 1);
    assert_eq!(entries_for_today[0].tasks, fresh.tasks);
    assert!(schedule.get_day(&tomorrow).is_some());
    assert_eq!(schedule.dates.len(), 2);
}

#[test]
fn upsert_into_empty_schedule() {
    let today = Date::new(2024, 6, 1);
    let mut schedule = Schedule::default();
    schedule.upsert_and_prune(today, day(today, vec![]), today);
    assert_eq!(schedule.dates.len(), 1);
    assert_eq!(schedule.dates[0].date, today);
}

#[test]
fn day_offset_rolls_over_after_eighteen() {
    assert_eq!(day_offset(12, false), 0);
    assert_eq!(day_offset(18, false), 0);
    assert_eq!(day_offset(19, false), 1);
    assert_eq!(day_offset(12, true), 1);
    assert_eq!(day_offset(23, true), 1);
}
