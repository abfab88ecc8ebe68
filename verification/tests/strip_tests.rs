use daytape::color::{get_color_index, get_tmux_color};
use daytape::schedule::{Date, DayState, Task};
use daytape::strip::{render_strip, StripColor};
use daytape::time::{Time, TimeSlot};

fn task(hour: usize, min: usize, duration: usize, label: &str) -> Task {
    Task {
        slot: TimeSlot { start: Time::new(hour, min), duration },
        label: label.chars().collect(),
    }
}

fn text_of(seg: &daytape::strip::Segment) -> String {
    seg.text.iter().collect()
}

#[test]
fn missing_day_renders_single_alert_segment() {
    let segs = render_strip(None, Time::new(12, 0), 48);
    assert_eq!(segs.len(), 1);
    assert_eq!(segs[0].color, StripColor::Alert);
    let text = text_of(&segs[0]);
    assert_eq!(text.len(), 48);
    assert!(text.starts_with("No task set"));
    assert!(text[11..].chars().all(|c| c == ' '));
}

#[test]
fn narrow_alert_keeps_whole_message() {
    let segs = render_strip(None, Time::new(12, 0), 5);
    assert_eq!(segs.len(), 1);
    assert_eq!(text_of(&segs[0]), "No task set");
}

#[test]
fn gap_between_same_label_tasks_makes_three_segments() {
    let day = DayState {
        date: Date::new(2024, 6, 1),
        tasks: vec![task(10, 0, 5, "ab"), task(10, 10, 5, "ab")],
    };
    let segs = render_strip(Some(&day), Time::new(10, 0), 15);
    assert_eq!(segs.len(), 3);
    let expected = StripColor::Palette(get_color_index(&"ab".chars().collect()));
    assert_eq!(segs[0].color, expected);
    assert_eq!(segs[1].color, StripColor::Default);
    assert_eq!(segs[2].color, expected);
    assert_eq!(text_of(&segs[0]), "ab   ");
    assert_eq!(text_of(&segs[1]), "     ");
    assert_eq!(text_of(&segs[2]), "ab   ");
}

#[test]
fn label_characters_run_through_a_segment() {
    let day = DayState {
        date: Date::new(2024, 6, 1),
        tasks: vec![task(9, 0, 10, "meeting")],
    };
    let segs = render_strip(Some(&day), Time::new(9, 0), 10);
    assert_eq!(segs.len(), 1);
    assert_eq!(text_of(&segs[0]), "meeting   ");
}

#[test]
fn strip_starts_mid_task() {
    let day = DayState {
        date: Date::new(2024, 6, 1),
        tasks: vec![task(9, 0, 10, "meeting")],
    };
    let segs = render_strip(Some(&day), Time::new(9, 8), 4);
    assert_eq!(segs.len(), 2);
    assert_eq!(text_of(&segs[0]), "me");
    assert_eq!(segs[1].color, StripColor::Default);
    assert_eq!(text_of(&segs[1]), "  ");
}

#[test]
fn empty_day_is_one_default_segment() {
    let day = DayState { date: Date::new(2024, 6, 1), tasks: vec![] };
    let segs = render_strip(Some(&day), Time::new(9, 0), 8);
    assert_eq!(segs.len(), 1);
    assert_eq!(segs[0].color, StripColor::Default);
    assert_eq!(text_of(&segs[0]), "        ");
}

#[test]
fn color_index_matches_the_digest() {
    for label in ["", "a", "meeting", "lunch with sam"] {
        let chars: Vec<char> = label.chars().collect();
        let digest = md5::compute(label.as_bytes());
        let bytes: [u8; 16] = digest.into();
        let expected = (u128::from_le_bytes(bytes) % 10) as usize;
        assert_eq!(get_color_index(&chars), expected);
    }
}

#[test]
fn color_index_of_empty_label() {
    assert_eq!(get_color_index(&vec![]), 6);
}

#[test]
fn same_label_same_color() {
    let a: Vec<char> = "standup".chars().collect();
    let b: Vec<char> = "standup".chars().collect();
    assert_eq!(get_color_index(&a), get_color_index(&b));
}

#[test]
fn tmux_color_is_hex_of_palette_entry() {
    let hex: String = get_tmux_color(0).iter().collect();
    assert_eq!(hex, "#be0000");
    let hex1: String = get_tmux_color(1).iter().collect();
    assert_eq!(hex1, "#00be00");
    let wrapped: String = get_tmux_color(12).iter().collect();
    assert_eq!(wrapped, "#0f34d7");
}
