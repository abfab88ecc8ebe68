//! The cursor-driven editing state machine: it turns discrete key
//! events into task mutations on one day's schedule.
//!
//! One step drains a batch of key events, clamps the cursor into the
//! editable window, and then runs the commit phase: delete, create,
//! mutate the selected task, and report whether a save or quit command
//! fired. The caller performs the outside work (drawing, saving,
//! leaving the loop); everything that decides is here.

use crate::schedule::{first_containing, tasks_view, tasks_wf, DayState, Task, TaskView};
use crate::time::{Time, TimeSlot};
use vstd::prelude::*;

verus! {

/// A discrete input event from the terminal.
#[derive(Clone, Copy, PartialEq, Eq, Structural, Debug)]
pub enum Key {
    Left,
    Right,
    Up,
    Down,
    Backspace,
    Esc,
    Char(char),
}

/// A command entered while in command mode.
#[derive(Clone, Copy, PartialEq, Eq, Structural, Debug)]
pub enum Command {
    Save,
    SaveAndQuit,
    Delete,
    Quit,
    Noop,
}

/// The pure mapping from a command-mode character to its command.
pub open spec fn spec_decode(c: char) -> Command {
    if c == 'q' {
        Command::SaveAndQuit
    } else if c == 's' {
        Command::Save
    } else if c == 'd' {
        Command::Delete
    } else if c == 'x' {
        Command::Quit
    } else {
        Command::Noop
    }
}

/// Decode a character received while in command mode.
pub fn decode_command(c: char) -> (r: Command)
    ensures
        r == spec_decode(c),
{
    if c == 'q' {
        Command::SaveAndQuit
    } else if c == 's' {
        Command::Save
    } else if c == 'd' {
        Command::Delete
    } else if c == 'x' {
        Command::Quit
    } else {
        Command::Noop
    }
}

/// The fixed alphabet accepted into a label while typing.
pub open spec fn is_label_char(c: char) -> bool {
    (65 <= c as u32 <= 90) || (97 <= c as u32 <= 122) || (48 <= c as u32 <= 57) || c == '-' || c
        == '_' || c == ',' || c == '.' || c == ';' || c == '\'' || c == '"' || c == '/' || c == '|'
        || c == '(' || c == ')' || c == '!' || c == '?' || c == '<' || c == '>' || c == '~' || c
        == '+' || c == '=' || c == '*' || c == '&' || c == '^' || c == '%' || c == '$' || c == '#'
        || c == '@' || c == ' '
}

fn label_char(c: char) -> (r: bool)
    ensures
        r == is_label_char(c),
{
    let u = c as u32;
    (65 <= u && u <= 90) || (97 <= u && u <= 122) || (48 <= u && u <= 57) || c == '-' || c == '_'
        || c == ',' || c == '.' || c == ';' || c == '\'' || c == '"' || c == '/' || c == '|' || c
        == '(' || c == ')' || c == '!' || c == '?' || c == '<' || c == '>' || c == '~' || c == '+'
        || c == '=' || c == '*' || c == '&' || c == '^' || c == '%' || c == '$' || c == '#' || c
        == '@' || c == ' '
}

/// The flags a batch of events can raise for the commit phase.
#[derive(Clone, Copy, PartialEq, Eq, Structural, Debug)]
pub struct StepFlags {
    pub save: bool,
    pub quit: bool,
    pub scale_up: bool,
    pub scale_down: bool,
    pub delete: bool,
    pub backspace: bool,
}

impl StepFlags {
    /// All flags lowered.
    pub open spec fn spec_none() -> StepFlags {
        StepFlags {
            save: false,
            quit: false,
            scale_up: false,
            scale_down: false,
            delete: false,
            backspace: false,
        }
    }

    pub fn none() -> (r: StepFlags)
        ensures
            r == StepFlags::spec_none(),
    {
        StepFlags {
            save: false,
            quit: false,
            scale_up: false,
            scale_down: false,
            delete: false,
            backspace: false,
        }
    }
}

/// What one `step` reports back to the driving loop.
#[derive(Clone, Copy, PartialEq, Eq, Structural, Debug)]
pub struct StepOut {
    pub save: bool,
    pub quit: bool,
}

/// The model of the event-reading half of a step: cursor, typed text,
/// command mode, and the flags raised so far.
#[verifier::ext_equal]
pub struct EdModel {
    pub cursor: Time,
    pub typed: Seq<char>,
    pub cmd_mode: bool,
    pub flags: StepFlags,
}

/// Five minutes: the cursor's and a slot's resize step.
pub open spec fn five_mins() -> Time {
    Time { hour: 0, min: 5 }
}

/// One hour: the cursor's vertical step.
pub open spec fn one_hour() -> Time {
    Time { hour: 1, min: 0 }
}

/// How one key event transforms the model. Left and Right snap to the
/// boundaries of the slot selected at the start of the batch, when one
/// is; command-mode characters decode to commands and leave command
/// mode; printable characters append to the typed buffer.
#[verifier::opaque]
pub open spec fn apply_event_spec(m: EdModel, key: Key, selected: Option<TimeSlot>) -> EdModel {
    match key {
        Key::Left => match selected {
            Some(slot) => EdModel { cursor: slot.start.spec_sub(five_mins()), ..m },
            None => EdModel { cursor: m.cursor.spec_sub(five_mins()), ..m },
        },
        Key::Right => match selected {
            Some(slot) => EdModel { cursor: slot.spec_end(), ..m },
            None => EdModel { cursor: m.cursor.spec_add(five_mins()), ..m },
        },
        Key::Up => EdModel { cursor: m.cursor.spec_sub(one_hour()), ..m },
        Key::Down => EdModel { cursor: m.cursor.spec_add(one_hour()), ..m },
        Key::Backspace => EdModel { flags: StepFlags { backspace: true, ..m.flags }, ..m },
        Key::Esc => EdModel { cmd_mode: false, ..m },
        Key::Char(c) => if m.cmd_mode {
            let m2 = EdModel { cmd_mode: false, ..m };
            match spec_decode(c) {
                Command::SaveAndQuit => EdModel {
                    flags: StepFlags { save: true, quit: true, ..m2.flags },
                    ..m2
                },
                Command::Save => EdModel { flags: StepFlags { save: true, ..m2.flags }, ..m2 },
                Command::Delete => EdModel { flags: StepFlags { delete: true, ..m2.flags }, ..m2 },
                Command::Quit => EdModel { flags: StepFlags { quit: true, ..m2.flags }, ..m2 },
                Command::Noop => m2,
            }
        } else if c == '[' {
            EdModel { flags: StepFlags { scale_down: true, ..m.flags }, ..m }
        } else if c == ']' {
            EdModel { flags: StepFlags { scale_up: true, ..m.flags }, ..m }
        } else if c == ':' {
            EdModel { cmd_mode: true, ..m }
        } else if is_label_char(c) {
            EdModel { typed: m.typed.push(c), ..m }
        } else {
            m
        },
    }
}

/// A whole batch of events, applied in order against one snapshot of
/// the selected slot.
pub open spec fn apply_events_spec(m: EdModel, keys: Seq<Key>, selected: Option<TimeSlot>) -> EdModel
    decreases keys.len(),
{
    if keys.len() == 0 {
        m
    } else {
        apply_events_spec(apply_event_spec(m, keys[0], selected), keys.drop_first(), selected)
    }
}

proof fn lemma_apply_events_snoc(m: EdModel, keys: Seq<Key>, k: Key, selected: Option<TimeSlot>)
    ensures
        apply_events_spec(m, keys.push(k), selected) == apply_event_spec(
            apply_events_spec(m, keys, selected),
            k,
            selected,
        ),
    decreases keys.len(),
{
    reveal_with_fuel(apply_events_spec, 2);
    if keys.len() == 0 {
        assert(keys.push(k).drop_first() =~= Seq::<Key>::empty());
    } else {
        assert(keys.push(k)[0] == keys[0]);
        assert(keys.push(k).drop_first() =~= keys.drop_first().push(k));
        lemma_apply_events_snoc(
            apply_event_spec(m, keys[0], selected),
            keys.drop_first(),
            k,
            selected,
        );
    }
}

/// The model preserves cursor normalization.
proof fn lemma_apply_event_wf(m: EdModel, key: Key, selected: Option<TimeSlot>)
    requires
        m.cursor.wf(),
        selected matches Some(s) ==> s.wf(),
    ensures
        apply_event_spec(m, key, selected).cursor.wf(),
{
    reveal(apply_event_spec);
    crate::time::lemma_in_mins_bounds(m.cursor);
    match key {
        Key::Left => match selected {
            Some(slot) => {
                crate::time::lemma_from_mins_props(
                    (slot.start.spec_in_mins() - five_mins().spec_in_mins() + 1440) % 1440,
                );
            },
            None => {
                crate::time::lemma_from_mins_props(
                    (m.cursor.spec_in_mins() - five_mins().spec_in_mins() + 1440) % 1440,
                );
            },
        },
        Key::Right => match selected {
            Some(slot) => {
                crate::time::lemma_from_mins_props(
                    (slot.start.spec_in_mins() + slot.duration) % 1440,
                );
            },
            None => {
                crate::time::lemma_from_mins_props(
                    (m.cursor.spec_in_mins() + five_mins().spec_in_mins()) % 1440,
                );
            },
        },
        Key::Up => {
            crate::time::lemma_from_mins_props(
                (m.cursor.spec_in_mins() - one_hour().spec_in_mins() + 1440) % 1440,
            );
        },
        Key::Down => {
            crate::time::lemma_from_mins_props(
                (m.cursor.spec_in_mins() + one_hour().spec_in_mins()) % 1440,
            );
        },
        _ => {},
    }
}

/// The editing state: the focused time, the text being typed, whether
/// command mode is active, and the working copy of the day.
pub struct EditorState {
    pub cursor: Time,
    pub typed: Vec<char>,
    pub cmd_mode: bool,
    pub day: DayState,
}

/// The model of an editor state, with the given flags attached.
pub open spec fn ed_model(st: EditorState, flags: StepFlags) -> EdModel {
    EdModel { cursor: st.cursor, typed: st.typed@, cmd_mode: st.cmd_mode, flags }
}

/// The slot of the first task containing `cursor`, if any.
pub open spec fn selected_slot_spec(tasks: Seq<TaskView>, cursor: Time) -> Option<TimeSlot> {
    match first_containing(tasks, cursor) {
        Some(i) => Some(tasks[i].slot),
        None => None,
    }
}

impl EditorState {
    pub open spec fn wf(self) -> bool {
        self.cursor.wf() && self.day.wf()
    }

    /// The initial state: cursor at 07:00, nothing typed, not in
    /// command mode.
    pub fn init(day: DayState) -> (r: EditorState)
        requires
            day.wf(),
        ensures
            r.cursor == (Time { hour: 7, min: 0 }),
            r.typed@.len() == 0,
            !r.cmd_mode,
            r.day == day,
            r.wf(),
    {
        EditorState { cursor: Time::new(7, 0), typed: Vec::new(), cmd_mode: false, day }
    }

    /// The slot selected by the cursor, snapshot for a batch of events.
    pub fn selected_slot(&self) -> (r: Option<TimeSlot>)
        requires
            self.wf(),
        ensures
            r == selected_slot_spec(tasks_view(self.day.tasks@), self.cursor),
            r matches Some(s) ==> s.wf(),
    {
        match self.day.find_containing(self.cursor) {
            Some(i) => {
                proof {
                    crate::schedule::lemma_first_containing_props(
                        tasks_view(self.day.tasks@),
                        self.cursor,
                    );
                }
                Some(self.day.tasks[i].slot)
            },
            None => None,
        }
    }

    /// Apply a batch of events to cursor, typed buffer, mode and flags.
    /// The day is untouched; the selected slot is the batch's snapshot.
    #[verifier::rlimit(60)]
    fn process_events(&mut self, events: &Vec<Key>, selected: Option<TimeSlot>) -> (flags:
        StepFlags)
        requires
            old(self).wf(),
            selected matches Some(s) ==> s.wf(),
        ensures
            ed_model(*final(self), flags) == apply_events_spec(
                ed_model(*old(self), StepFlags::spec_none()),
                events@,
                selected,
            ),
            final(self).day == old(self).day,
            final(self).wf(),
    {
        let ghost m0 = ed_model(*old(self), StepFlags::spec_none());
        let mut flags = StepFlags::none();
        let mut i: usize = 0;
        proof {
            assert(events@.take(0) =~= Seq::<Key>::empty());
        }
        while i < events.len()
            invariant
                i <= events@.len(),
                selected matches Some(s) ==> s.wf(),
                ed_model(*self, flags) == apply_events_spec(m0, events@.take(i as int), selected),
                self.cursor.wf(),
                self.day == old(self).day,
                old(self).day.wf(),
            decreases events@.len() - i,
        {
            let ghost mcur = ed_model(*self, flags);
            let key = events[i];
            proof {
                assert(events@.take(i + 1) =~= events@.take(i as int).push(key));
                lemma_apply_events_snoc(m0, events@.take(i as int), key, selected);
                lemma_apply_event_wf(mcur, key, selected);
            }
            match key {
                Key::Left => {
                    match selected {
                        Some(slot) => {
                            self.cursor = slot.start.sub(Time::mins(5));
                        },
                        None => {
                            self.cursor = self.cursor.sub(Time::mins(5));
                        },
                    }
                },
                Key::Right => {
                    match selected {
                        Some(slot) => {
                            self.cursor = slot.end();
                        },
                        None => {
                            self.cursor = self.cursor.add(Time::mins(5));
                        },
                    }
                },
                Key::Up => {
                    self.cursor = self.cursor.sub(Time::hours(1));
                },
                Key::Down => {
                    self.cursor = self.cursor.add(Time::hours(1));
                },
                Key::Backspace => {
                    flags.backspace = true;
                },
                Key::Esc => {
                    self.cmd_mode = false;
                },
                Key::Char(c) => {
                    if self.cmd_mode {
                        self.cmd_mode = false;
                        match decode_command(c) {
                            Command::SaveAndQuit => {
                                flags.save = true;
                                flags.quit = true;
                            },
                            Command::Save => {
                                flags.save = true;
                            },
                            Command::Delete => {
                                flags.delete = true;
                            },
                            Command::Quit => {
                                flags.quit = true;
                            },
                            Command::Noop => {},
                        }
                    } else if c == '[' {
                        flags.scale_down = true;
                    } else if c == ']' {
                        flags.scale_up = true;
                    } else if c == ':' {
                        self.cmd_mode = true;
                    } else if label_char(c) {
                        self.typed.push(c);
                    }
                },
            }
            proof {
                reveal(apply_event_spec);
                assert(ed_model(*self, flags) =~= apply_event_spec(mcur, key, selected));
            }
            i += 1;
        }
        proof {
            assert(events@.take(events@.len() as int) =~= events@);
        }
        flags
    }
}

/// Lexicographic order on label text, by code point; the empty text
/// comes first.
pub open spec fn lex_le(a: Seq<char>, b: Seq<char>) -> bool
    decreases a.len(),
{
    if a.len() == 0 {
        true
    } else if b.len() == 0 {
        false
    } else if (a[0] as u32) < (b[0] as u32) {
        true
    } else if (b[0] as u32) < (a[0] as u32) {
        false
    } else {
        lex_le(a.drop_first(), b.drop_first())
    }
}

/// The task ordering used to keep a day's list time-ordered: by start,
/// then duration, then label.
pub open spec fn task_le(a: TaskView, b: TaskView) -> bool {
    if a.slot.start.spec_in_mins() != b.slot.start.spec_in_mins() {
        a.slot.start.spec_in_mins() < b.slot.start.spec_in_mins()
    } else if a.slot.duration != b.slot.duration {
        a.slot.duration < b.slot.duration
    } else {
        lex_le(a.label, b.label)
    }
}

/// Insertion of a task before the first task not below it.
pub open spec fn insert_sorted(s: Seq<TaskView>, t: TaskView) -> Seq<TaskView>
    decreases s.len(),
{
    if s.len() == 0 {
        seq![t]
    } else if task_le(t, s[0]) {
        seq![t] + s
    } else {
        seq![s[0]] + insert_sorted(s.drop_first(), t)
    }
}

/// The insertion sort of a task list, a deterministic function of the
/// list: later elements are inserted later, so equal keys keep their
/// relative order.
pub open spec fn sort_spec(s: Seq<TaskView>) -> Seq<TaskView>
    decreases s.len(),
{
    if s.len() == 0 {
        Seq::empty()
    } else {
        insert_sorted(sort_spec(s.drop_last()), s.last())
    }
}

/// A task list in which every adjacent pair is ordered.
pub open spec fn sorted_by_task_le(s: Seq<TaskView>) -> bool {
    forall|i: int| 0 <= i < s.len() - 1 ==> task_le(#[trigger] s[i], s[i + 1])
}

proof fn lemma_lex_le_total(a: Seq<char>, b: Seq<char>)
    ensures
        lex_le(a, b) || lex_le(b, a),
    decreases a.len(),
{
    if a.len() > 0 && b.len() > 0 && !((a[0] as u32) < (b[0] as u32)) && !((b[0] as u32) < (
    a[0] as u32)) {
        lemma_lex_le_total(a.drop_first(), b.drop_first());
    }
}

proof fn lemma_task_le_total(a: TaskView, b: TaskView)
    ensures
        task_le(a, b) || task_le(b, a),
{
    lemma_lex_le_total(a.label, b.label);
}

proof fn lemma_insert_sorted_props(s: Seq<TaskView>, t: TaskView)
    requires
        sorted_by_task_le(s),
    ensures
        sorted_by_task_le(insert_sorted(s, t)),
        insert_sorted(s, t).to_multiset() == s.to_multiset().insert(t),
    decreases s.len(),
{
    broadcast use vstd::seq_lib::group_to_multiset_ensures;
    broadcast use vstd::multiset::group_multiset_axioms;

    let out = insert_sorted(s, t);
    if s.len() == 0 {
        assert(out =~= Seq::<TaskView>::empty().push(t));
        assert(s.to_multiset() =~= Seq::<TaskView>::empty().to_multiset());
        assert(out.to_multiset() =~= s.to_multiset().insert(t));
    } else if task_le(t, s[0]) {
        vstd::seq_lib::lemma_multiset_commutative(seq![t], s);
        assert(seq![t] =~= Seq::<TaskView>::empty().push(t));
        assert(out.to_multiset() =~= s.to_multiset().insert(t));
        assert forall|i: int| 0 <= i < out.len() - 1 implies task_le(#[trigger] out[i], out[i
            + 1]) by {
            if i > 0 {
                assert(out[i] == s[i - 1] && out[i + 1] == s[i]);
            }
        }
    } else {
        let df = s.drop_first();
        assert(sorted_by_task_le(df)) by {
            assert(forall|i: int| 0 <= i < df.len() - 1 ==> #[trigger] df[i] == s[i + 1] && df[i
                + 1] == s[i + 2]);
        }
        lemma_insert_sorted_props(df, t);
        let rest = insert_sorted(df, t);
        assert(out =~= seq![s[0]] + rest);
        vstd::seq_lib::lemma_multiset_commutative(seq![s[0]], rest);
        vstd::seq_lib::lemma_multiset_commutative(seq![s[0]], df);
        assert(seq![s[0]] + df =~= s);
        assert(seq![s[0]] =~= Seq::<TaskView>::empty().push(s[0]));
        assert(out.to_multiset() =~= s.to_multiset().insert(t));
        lemma_task_le_total(t, s[0]);
        assert(rest.len() > 0);
        assert(task_le(s[0], rest[0])) by {
            if df.len() == 0 || task_le(t, df[0]) {
                assert(rest[0] == t);
            } else {
                assert(rest[0] == df[0] && df[0] == s[1]);
            }
        }
        assert forall|i: int| 0 <= i < out.len() - 1 implies task_le(#[trigger] out[i], out[i
            + 1]) by {
            if i > 0 {
                assert(out[i] == rest[i - 1] && out[i + 1] == rest[i]);
            }
        }
    }
}

/// Law: the sort of a task list is a permutation of it in which every
/// adjacent pair of tasks is time-ordered.
pub proof fn lemma_sort_spec_sorted(s: Seq<TaskView>)
    ensures
        sorted_by_task_le(sort_spec(s)),
        sort_spec(s).to_multiset() == s.to_multiset(),
    decreases s.len(),
{
    broadcast use vstd::seq_lib::group_to_multiset_ensures;

    if s.len() == 0 {
    } else {
        let dl = s.drop_last();
        lemma_sort_spec_sorted(dl);
        lemma_insert_sorted_props(sort_spec(dl), s.last());
        assert(dl.push(s.last()) =~= s);
        assert(sort_spec(s).to_multiset() =~= s.to_multiset());
    }
}

/// `insert_sorted` splices the new task exactly at the first position
/// whose task is not below it.
proof fn lemma_insert_sorted_at(s: Seq<TaskView>, t: TaskView, j: int)
    requires
        0 <= j <= s.len(),
        forall|i: int| 0 <= i < j ==> !task_le(t, #[trigger] s[i]),
        j < s.len() ==> task_le(t, s[j]),
    ensures
        insert_sorted(s, t) == s.take(j) + seq![t] + s.skip(j),
    decreases s.len(),
{
    if s.len() == 0 {
        assert(insert_sorted(s, t) =~= s.take(0) + seq![t] + s.skip(0));
    } else if j == 0 {
        assert(task_le(t, s[0]));
        assert(insert_sorted(s, t) =~= s.take(0) + seq![t] + s.skip(0));
    } else {
        assert(!task_le(t, s[0]));
        let rest = s.drop_first();
        assert(forall|i: int| 0 <= i < j - 1 ==> !task_le(t, #[trigger] rest[i])) by {
            assert(forall|i: int| 0 <= i < j - 1 ==> #[trigger] rest[i] == s[i + 1]);
        }
        assert(j - 1 < rest.len() ==> task_le(t, rest[j - 1]));
        lemma_insert_sorted_at(rest, t, j - 1);
        assert(seq![s[0]] + (rest.take(j - 1) + seq![t] + rest.skip(j - 1)) =~= s.take(j)
            + seq![t] + s.skip(j));
    }
}

fn lex_le_x(a: &Vec<char>, b: &Vec<char>) -> (r: bool)
    ensures
        r == lex_le(a@, b@),
{
    let mut i: usize = 0;
    loop
        invariant
            i <= a@.len(),
            i <= b@.len(),
            forall|k: int| 0 <= k < i ==> (#[trigger] a@[k]) as u32 == (b@[k]) as u32,
        decreases a@.len() - i,
    {
        proof {
            lemma_lex_le_common_prefix(a@, b@, i as int);
        }
        if i >= a.len() {
            return true;
        }
        if i >= b.len() {
            return false;
        }
        let au = a[i] as u32;
        let bu = b[i] as u32;
        proof {
            assert(a@.skip(i as int)[0] == a@[i as int]);
            assert(b@.skip(i as int)[0] == b@[i as int]);
        }
        if au < bu {
            return true;
        }
        if bu < au {
            return false;
        }
        i += 1;
    }
}

/// A common prefix does not decide the lexicographic order.
proof fn lemma_lex_le_common_prefix(a: Seq<char>, b: Seq<char>, i: int)
    requires
        0 <= i <= a.len(),
        i <= b.len(),
        forall|k: int| 0 <= k < i ==> (#[trigger] a[k]) as u32 == (b[k]) as u32,
    ensures
        lex_le(a, b) == lex_le(a.skip(i), b.skip(i)),
    decreases i,
{
    if i == 0 {
        assert(a.skip(0) =~= a);
        assert(b.skip(0) =~= b);
    } else {
        assert(a.len() > 0 && b.len() > 0 && (a[0] as u32) == (b[0] as u32));
        assert(a.drop_first().skip(i - 1) =~= a.skip(i));
        assert(b.drop_first().skip(i - 1) =~= b.skip(i));
        assert(forall|k: int|
            0 <= k < i - 1 ==> (#[trigger] a.drop_first()[k]) as u32 == (b.drop_first()[k]) as u32)
            by {
            assert(forall|k: int|
                0 <= k < i - 1 ==> a.drop_first()[k] == a[k + 1] && b.drop_first()[k] == b[k
                    + 1]);
        }
        lemma_lex_le_common_prefix(a.drop_first(), b.drop_first(), i - 1);
    }
}

fn task_le_x(a: &Task, b: &Task) -> (r: bool)
    requires
        a.wf(),
        b.wf(),
    ensures
        r == task_le(a@, b@),
{
    let ka = a.slot.start.in_mins();
    let kb = b.slot.start.in_mins();
    if ka != kb {
        ka < kb
    } else if a.slot.duration != b.slot.duration {
        a.slot.duration < b.slot.duration
    } else {
        lex_le_x(&a.label, &b.label)
    }
}

/// Insert one task at the position `insert_sorted` names.
fn insert_task_sorted(tasks: &mut Vec<Task>, t: Task)
    requires
        tasks_wf(old(tasks)@),
        t.wf(),
    ensures
        tasks_view(final(tasks)@) == insert_sorted(tasks_view(old(tasks)@), t@),
        tasks_wf(final(tasks)@),
{
    let ghost tv = tasks_view(tasks@);
    let mut j: usize = 0;
    while j < tasks.len() && !task_le_x(&t, &tasks[j])
        invariant
            j <= tasks@.len(),
            tv == tasks_view(tasks@),
            tasks_wf(tasks@),
            t.wf(),
            forall|i: int| 0 <= i < j ==> !task_le(t@, #[trigger] tv[i]),
        decreases tasks@.len() - j,
    {
        j += 1;
    }
    proof {
        lemma_insert_sorted_at(tv, t@, j as int);
    }
    tasks.insert(j, t);
    proof {
        assert(tasks_view(tasks@) =~= tv.take(j as int) + seq![t@] + tv.skip(j as int));
    }
}

/// Sort a day's tasks, exactly as `sort_spec` says.
fn sort_tasks(tasks: &mut Vec<Task>)
    requires
        tasks_wf(old(tasks)@),
    ensures
        tasks_view(final(tasks)@) == sort_spec(tasks_view(old(tasks)@)),
        tasks_wf(final(tasks)@),
{
    let ghost orig = tasks@;
    let mut out: Vec<Task> = Vec::new();
    let ghost mut k: int = 0;
    proof {
        assert(tasks_view(orig.take(0)) =~= Seq::<TaskView>::empty());
        assert(orig.skip(0) =~= orig);
    }
    while tasks.len() > 0
        invariant
            0 <= k <= orig.len(),
            tasks@ == orig.skip(k),
            tasks_wf(orig),
            tasks_wf(out@),
            tasks_view(out@) == sort_spec(tasks_view(orig.take(k))),
        decreases tasks@.len(),
    {
        let t = tasks.remove(0);
        proof {
            assert(t == orig[k]);
            assert(orig.skip(k).remove(0) =~= orig.skip(k + 1));
        }
        insert_task_sorted(&mut out, t);
        proof {
            let tv1 = tasks_view(orig.take(k + 1));
            assert(tv1.drop_last() =~= tasks_view(orig.take(k)));
            assert(tv1.last() == orig[k]@);
            assert(tv1.len() > 0);
            k = k + 1;
        }
    }
    proof {
        assert(orig.take(orig.len() as int) =~= orig);
    }
    *tasks = out;
}

/// The predicate of the delete command: tasks that do not contain the
/// cursor survive.
pub open spec fn not_containing_pred(cursor: Time) -> spec_fn(TaskView) -> bool {
    |t: TaskView| !t.slot.spec_contains(cursor)
}

/// Remove every task whose slot contains `cursor`.
fn delete_tasks_at(tasks: &mut Vec<Task>, cursor: Time)
    requires
        tasks_wf(old(tasks)@),
        cursor.wf(),
    ensures
        tasks_view(final(tasks)@) == tasks_view(old(tasks)@).filter(not_containing_pred(cursor)),
        tasks_wf(final(tasks)@),
{
    let ghost orig = tasks@;
    let mut kept: Vec<Task> = Vec::new();
    let ghost mut k: int = 0;
    proof {
        assert(tasks_view(orig.take(0)) =~= Seq::<TaskView>::empty());
        reveal(Seq::filter);
        assert(orig.skip(0) =~= orig);
    }
    while tasks.len() > 0
        invariant
            0 <= k <= orig.len(),
            tasks@ == orig.skip(k),
            cursor.wf(),
            tasks_wf(orig),
            tasks_wf(kept@),
            tasks_view(kept@) == tasks_view(orig.take(k)).filter(not_containing_pred(cursor)),
        decreases tasks@.len(),
    {
        let t = tasks.remove(0);
        proof {
            assert(t == orig[k]);
            assert(orig.skip(k).remove(0) =~= orig.skip(k + 1));
            reveal(Seq::filter);
            let tv1 = tasks_view(orig.take(k + 1));
            assert(tv1.drop_last() =~= tasks_view(orig.take(k)));
            assert(tv1.last() == orig[k]@);
        }
        let keep = !t.slot.contains(cursor);
        if keep {
            kept.push(t);
            proof {
                assert(tasks_view(kept@) =~= tasks_view(orig.take(k)).filter(
                    not_containing_pred(cursor),
                ).push(t@));
            }
        }
        proof {
            k = k + 1;
        }
    }
    proof {
        assert(orig.take(orig.len() as int) =~= orig);
    }
    *tasks = kept;
}

/// The task the editor creates at an empty cursor: fifteen minutes,
/// empty label.
pub open spec fn new_task_at(cursor: Time) -> TaskView {
    TaskView { slot: TimeSlot { start: cursor, duration: 15 }, label: Seq::empty() }
}

/// The delete phase of a commit.
pub open spec fn delete_step(tasks: Seq<TaskView>, cursor: Time, del: bool) -> Seq<TaskView> {
    if del {
        tasks.filter(not_containing_pred(cursor))
    } else {
        tasks
    }
}

/// A task is created iff something was typed and no task contains the
/// cursor.
pub open spec fn should_create(tasks: Seq<TaskView>, cursor: Time, typed: Seq<char>) -> bool {
    typed.len() > 0 && first_containing(tasks, cursor) is None
}

/// The create phase of a commit: push the new task and re-sort.
pub open spec fn create_step(tasks: Seq<TaskView>, cursor: Time, typed: Seq<char>) -> Seq<
    TaskView,
> {
    if should_create(tasks, cursor, typed) {
        sort_spec(tasks.push(new_task_at(cursor)))
    } else {
        tasks
    }
}

/// What a commit leaves behind: the day's tasks, the cursor, and the
/// typed buffer.
#[verifier::ext_equal]
pub struct CommitOut {
    pub tasks: Seq<TaskView>,
    pub cursor: Time,
    pub typed: Seq<char>,
}

/// The third phase of a commit: mutate the task now under the cursor,
/// if one is — append the typed text to its label and clear the typed
/// buffer, pop one label character on backspace, resize by five
/// minutes with the duration floored at five and capped under a day,
/// and snap the cursor to the new end minus five minutes after a
/// resize. With no task under the cursor, nothing changes.
pub open spec fn mutate_spec(
    ts2: Seq<TaskView>,
    cursor: Time,
    typed: Seq<char>,
    flags: StepFlags,
) -> CommitOut {
    match first_containing(ts2, cursor) {
        Some(i) => {
            let t = ts2[i];
            let lab1 = t.label + typed;
            let lab2 = if flags.backspace && lab1.len() > 0 {
                lab1.drop_last()
            } else {
                lab1
            };
            let d1: int = if flags.scale_up && t.slot.duration + 5 < 1440 {
                t.slot.duration + 5
            } else {
                t.slot.duration as int
            };
            let d2: int = if flags.scale_down && d1 > 5 {
                d1 - 5
            } else {
                d1
            };
            let slot2 = TimeSlot { start: t.slot.start, duration: d2 as usize };
            let cur2 = if flags.scale_up || flags.scale_down {
                slot2.spec_end().spec_sub(five_mins())
            } else {
                cursor
            };
            CommitOut {
                tasks: ts2.update(i, TaskView { slot: slot2, label: lab2 }),
                cursor: cur2,
                typed: Seq::empty(),
            }
        },
        None => CommitOut { tasks: ts2, cursor, typed },
    }
}

/// The whole commit phase, in order: delete every task containing the
/// cursor if the delete command fired; create a fresh task at the
/// cursor if something was typed and no task contains it, re-sorting
/// the list; then mutate the task now under the cursor.
pub open spec fn commit_spec(
    tasks: Seq<TaskView>,
    cursor: Time,
    typed: Seq<char>,
    flags: StepFlags,
) -> CommitOut {
    mutate_spec(
        create_step(delete_step(tasks, cursor, flags.delete), cursor, typed),
        cursor,
        typed,
        flags,
    )
}

impl EditorState {
    /// The commit phase, applied to the current cursor and typed text.
    fn commit(&mut self, flags: StepFlags)
        requires
            old(self).wf(),
        ensures
            ({
                let out = commit_spec(
                    tasks_view(old(self).day.tasks@),
                    old(self).cursor,
                    old(self).typed@,
                    flags,
                );
                &&& tasks_view(final(self).day.tasks@) == out.tasks
                &&& final(self).cursor == out.cursor
                &&& final(self).typed@ == out.typed
            }),
            final(self).day.date == old(self).day.date,
            final(self).cmd_mode == old(self).cmd_mode,
            final(self).wf(),
    {
        let ghost tasks0 = tasks_view(old(self).day.tasks@);
        let cursor = self.cursor;
        if flags.delete {
            delete_tasks_at(&mut self.day.tasks, cursor);
        }
        let ghost ts1 = delete_step(tasks0, cursor, flags.delete);
        let ghost typed0 = self.typed@;
        if self.typed.len() > 0 {
            let found = self.day.find_containing(cursor);
            if found.is_none() {
                let t = Task {
                    slot: TimeSlot { start: cursor, duration: 15 },
                    label: Vec::new(),
                };
                proof {
                    assert(tasks_view(self.day.tasks@.push(t)) =~= ts1.push(new_task_at(cursor)));
                }
                self.day.tasks.push(t);
                sort_tasks(&mut self.day.tasks);
            }
        }
        proof {
            assert(tasks_view(self.day.tasks@) == create_step(ts1, cursor, typed0));
        }
        self.mutate_selected(flags);
    }

    /// The mutation phase: edit the task now under the cursor.
    #[verifier::rlimit(100)]
    #[verifier::spinoff_prover]
    fn mutate_selected(&mut self, flags: StepFlags)
        requires
            old(self).wf(),
        ensures
            ({
                let out = mutate_spec(
                    tasks_view(old(self).day.tasks@),
                    old(self).cursor,
                    old(self).typed@,
                    flags,
                );
                &&& tasks_view(final(self).day.tasks@) == out.tasks
                &&& final(self).cursor == out.cursor
                &&& final(self).typed@ == out.typed
            }),
            final(self).day.date == old(self).day.date,
            final(self).cmd_mode == old(self).cmd_mode,
            final(self).wf(),
    {
        let ghost ts2 = tasks_view(self.day.tasks@);
        let ghost typed0 = self.typed@;
        let cursor = self.cursor;
        match self.day.find_containing(cursor) {
            Some(i) => {
                proof {
                    crate::schedule::lemma_first_containing_props(ts2, cursor);
                }
                let t = self.day.tasks.remove(i);
                let mut label = t.label;
                let ghost lab0 = label@;
                let mut j: usize = 0;
                while j < self.typed.len()
                    invariant
                        j <= self.typed@.len(),
                        self.typed@ == typed0,
                        label@ == lab0 + typed0.take(j as int),
                    decreases self.typed@.len() - j,
                {
                    label.push(self.typed[j]);
                    proof {
                        assert(lab0 + typed0.take(j as int) + seq![typed0[j as int]] =~= lab0
                            + typed0.take(j + 1));
                    }
                    j += 1;
                }
                proof {
                    assert(lab0 + typed0.take(typed0.len() as int) =~= lab0 + typed0);
                }
                self.typed.clear();
                if flags.backspace {
                    let _popped = label.pop();
                    proof {
                        if (lab0 + typed0).len() > 0 {
                            assert(label@ =~= (lab0 + typed0).drop_last());
                        }
                    }
                }
                let mut duration = t.slot.duration;
                if flags.scale_up {
                    if duration + 5 < 1440 {
                        duration = duration + 5;
                    }
                }
                if flags.scale_down && duration > 5 {
                    duration = duration - 5;
                }
                let slot2 = TimeSlot { start: t.slot.start, duration };
                if flags.scale_up || flags.scale_down {
                    self.cursor = slot2.end().sub(Time::mins(5));
                }
                let t2 = Task { slot: slot2, label };
                self.day.tasks.insert(i, t2);
                proof {
                    let out = mutate_spec(ts2, cursor, typed0, flags);
                    assert(Time::spec_from_mins(5) == five_mins());
                    assert(tasks_view(self.day.tasks@) =~= ts2.update(i as int, t2@));
                    assert(t2@.label =~= out.tasks[i as int].label);
                    assert(tasks_view(self.day.tasks@) =~= out.tasks);
                }
            },
            None => {},
        }
    }

    /// One editing step: snapshot the selected slot, apply a batch of
    /// events, clamp the cursor into the editable window (07:00 to
    /// 18:55), run the commit phase, and report whether a save or quit
    /// command fired.
    pub fn step(&mut self, events: &Vec<Key>) -> (r: StepOut)
        requires
            old(self).wf(),
        ensures
            ({
                let tasks0 = tasks_view(old(self).day.tasks@);
                let selected = selected_slot_spec(tasks0, old(self).cursor);
                let m = apply_events_spec(
                    ed_model(*old(self), StepFlags::spec_none()),
                    events@,
                    selected,
                );
                let c2 = m.cursor.spec_clamp(Time { hour: 7, min: 0 }, Time { hour: 18, min: 55 });
                let out = commit_spec(tasks0, c2, m.typed, m.flags);
                &&& tasks_view(final(self).day.tasks@) == out.tasks
                &&& final(self).cursor == out.cursor
                &&& final(self).typed@ == out.typed
                &&& final(self).cmd_mode == m.cmd_mode
                &&& r.save == m.flags.save
                &&& r.quit == m.flags.quit
            }),
            final(self).day.date == old(self).day.date,
            final(self).wf(),
    {
        let selected = self.selected_slot();
        let flags = self.process_events(events, selected);
        self.cursor = self.cursor.clamp(Time::new(7, 0), Time::new(18, 55));
        self.commit(flags);
        StepOut { save: flags.save, quit: flags.quit }
    }
}

/// Law: growing the selected task by one step adds five minutes to its
/// duration, moves its end five minutes forward on the wrapping clock,
/// and snaps the cursor to the new end minus five minutes.
pub proof fn lemma_grow_moves_end(tasks: Seq<TaskView>, cursor: Time, i: int)
    requires
        cursor.wf(),
        first_containing(tasks, cursor) == Some(i),
        0 <= i < tasks.len(),
        tasks[i].slot.wf(),
        tasks[i].slot.duration + 5 < 1440,
    ensures
        ({
            let flags = StepFlags {
                save: false,
                quit: false,
                scale_up: true,
                scale_down: false,
                delete: false,
                backspace: false,
            };
            let out = commit_spec(tasks, cursor, Seq::empty(), flags);
            &&& out.tasks.len() == tasks.len()
            &&& out.tasks[i].slot.duration == tasks[i].slot.duration + 5
            &&& out.tasks[i].slot.spec_end().spec_in_mins() == (
            tasks[i].slot.spec_end().spec_in_mins() + 5) % 1440
            &&& out.cursor == out.tasks[i].slot.spec_end().spec_sub(five_mins())
        }),
{
    let flags = StepFlags {
        save: false,
        quit: false,
        scale_up: true,
        scale_down: false,
        delete: false,
        backspace: false,
    };
    let out = commit_spec(tasks, cursor, Seq::empty(), flags);
    let t = tasks[i];
    assert(t.label + Seq::<char>::empty() =~= t.label);
    let x = t.slot.start.spec_in_mins() + t.slot.duration;
    crate::time::lemma_from_mins_props(x % 1440);
    crate::time::lemma_from_mins_props((x + 5) % 1440);
    assert((x % 1440 + 5) % 1440 == (x + 5) % 1440) by {
        vstd::arithmetic::div_mod::lemma_add_mod_noop(x, 5, 1440);
        vstd::arithmetic::div_mod::lemma_small_mod(5nat, 1440);
        vstd::arithmetic::div_mod::lemma_mod_twice(x, 1440);
        vstd::arithmetic::div_mod::lemma_add_mod_noop(x % 1440, 5, 1440);
    };
}

} // verus!
