use daytape::editor::{decode_command, Command, EditorState, Key};
use daytape::schedule::{Date, DayState, Task};
use daytape::time::{Time, TimeSlot};

fn empty_day() -> DayState {
    DayState { date: Date::new(2024, 6, 1), tasks: vec![] }
}

fn chars(s: &str) -> Vec<Key> {
    s.chars().map(Key::Char).collect()
}

fn label_of(task: &Task) -> String {
    task.label.iter().collect()
}

#[test]
fn command_decoding() {
    assert_eq!(decode_command('q'), Command::SaveAndQuit);
    assert_eq!(decode_command('s'), Command::Save);
    assert_eq!(decode_command('d'), Command::Delete);
    assert_eq!(decode_command('x'), Command::Quit);
    assert_eq!(decode_command('z'), Command::Noop);
}

#[test]
fn initial_state() {
    let ed = EditorState::init(empty_day());
    assert_eq!(ed.cursor, Time::new(7, 0));
    assert!(ed.typed.is_empty());
    assert!(!ed.cmd_mode);
}

#[test]
fn typing_creates_one_task_with_label() {
    let mut ed = EditorState::init(empty_day());
    let out = ed.step(&chars("meeting"));
    assert!(!out.save);
    assert!(!out.quit);
    assert_eq!(ed.day.tasks.len(), 1);
    let t = &ed.day.tasks[0];
    assert_eq!(t.slot.start, Time::new(7, 0));
    assert_eq!(t.slot.duration, 15);
    assert_eq!(label_of(t), "meeting");
    assert!(ed.typed.is_empty());
}

#[test]
fn typing_at_occupied_cursor_appends() {
    let mut ed = EditorState::init(empty_day());
    ed.step(&chars("meeting"));
    ed.step(&chars(" notes"));
    assert_eq!(ed.day.tasks.len(), 1);
    assert_eq!(label_of(&ed.day.tasks[0]), "meeting notes");
}

#[test]
fn growing_moves_end_and_cursor() {
    let mut ed = EditorState::init(empty_day());
    ed.step(&chars("gym"));
    ed.step(&vec![Key::Char(']')]);
    let slot = ed.day.tasks[0].slot;
    assert_eq!(slot.duration, 20);
    assert_eq!(slot.end(), Time::new(7, 20));
    assert_eq!(ed.cursor, Time::new(7, 15));
}

#[test]
fn shrinking_floors_at_five_minutes() {
    let mut ed = EditorState::init(empty_day());
    ed.step(&chars("nap"));
    ed.step(&vec![Key::Char('[')]);
    assert_eq!(ed.day.tasks[0].slot.duration, 10);
    ed.step(&vec![Key::Char('[')]);
    assert_eq!(ed.day.tasks[0].slot.duration, 5);
    ed.step(&vec![Key::Char('[')]);
    assert_eq!(ed.day.tasks[0].slot.duration, 5);
}

#[test]
fn delete_command_removes_task_at_cursor() {
    let mut ed = EditorState::init(empty_day());
    ed.step(&chars("call"));
    assert_eq!(ed.day.tasks.len(), 1);
    let out = ed.step(&vec![Key::Char(':'), Key::Char('d')]);
    assert!(!out.save);
    assert!(!out.quit);
    assert!(ed.day.tasks.is_empty());
    assert!(!ed.cmd_mode);
}

#[test]
fn save_and_quit_commands() {
    let mut ed = EditorState::init(empty_day());
    let out = ed.step(&vec![Key::Char(':'), Key::Char('s')]);
    assert!(out.save);
    assert!(!out.quit);
    let out = ed.step(&vec![Key::Char(':'), Key::Char('q')]);
    assert!(out.save);
    assert!(out.quit);
    let out = ed.step(&vec![Key::Char(':'), Key::Char('x')]);
    assert!(!out.save);
    assert!(out.quit);
}

#[test]
fn unknown_command_exits_command_mode() {
    let mut ed = EditorState::init(empty_day());
    let out = ed.step(&vec![Key::Char(':'), Key::Char('z')]);
    assert!(!out.save);
    assert!(!out.quit);
    assert!(!ed.cmd_mode);
    assert!(ed.day.tasks.is_empty());
}

#[test]
fn escape_leaves_command_mode() {
    let mut ed = EditorState::init(empty_day());
    ed.step(&vec![Key::Char(':')]);
    assert!(ed.cmd_mode);
    ed.step(&vec![Key::Esc]);
    assert!(!ed.cmd_mode);
}

#[test]
fn navigation_steps_and_clamps() {
    let mut ed = EditorState::init(empty_day());
    ed.step(&vec![Key::Left]);
    assert_eq!(ed.cursor, Time::new(7, 0));
    ed.step(&vec![Key::Right]);
    assert_eq!(ed.cursor, Time::new(7, 5));
    ed.step(&vec![Key::Down]);
    assert_eq!(ed.cursor, Time::new(8, 5));
    ed.step(&vec![Key::Up]);
    assert_eq!(ed.cursor, Time::new(7, 5));
    ed.step(&vec![Key::Up]);
    assert_eq!(ed.cursor, Time::new(7, 0));
}

#[test]
fn navigation_snaps_over_selected_task() {
    let mut ed = EditorState::init(empty_day());
    ed.day.tasks.push(Task {
        slot: TimeSlot { start: Time::new(7, 0), duration: 30 },
        label: vec!['a'],
    });
    ed.step(&vec![Key::Right]);
    assert_eq!(ed.cursor, Time::new(7, 30));
    ed.step(&vec![Key::Left]);
    assert_eq!(ed.cursor, Time::new(7, 25));
}

#[test]
fn backspace_pops_label_character() {
    let mut ed = EditorState::init(empty_day());
    ed.step(&chars("abc"));
    ed.step(&vec![Key::Backspace]);
    assert_eq!(label_of(&ed.day.tasks[0]), "ab");
}

#[test]
fn invalid_characters_are_ignored() {
    let mut ed = EditorState::init(empty_day());
    ed.step(&vec![Key::Char('{'), Key::Char('}')]);
    assert!(ed.day.tasks.is_empty());
    assert!(ed.typed.is_empty());
}

#[test]
fn created_tasks_are_kept_sorted() {
    let mut ed = EditorState::init(empty_day());
    ed.step(&vec![Key::Down, Key::Down]);
    assert_eq!(ed.cursor, Time::new(9, 0));
    ed.step(&chars("late"));
    ed.step(&vec![Key::Up, Key::Up]);
    ed.step(&chars("early"));
    assert_eq!(ed.day.tasks.len(), 2);
    assert_eq!(label_of(&ed.day.tasks[0]), "early");
    assert_eq!(ed.day.tasks[0].slot.start, Time::new(7, 0));
    assert_eq!(label_of(&ed.day.tasks[1]), "late");
    assert_eq!(ed.day.tasks[1].slot.start, Time::new(9, 0));
}
