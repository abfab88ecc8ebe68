//! The status strip: one day's tasks condensed into a fixed-width,
//! color-segmented line of text centered on "now".
//!
//! The strip walks consecutive one-minute ticks from `now`. Each tick
//! shows one character of the containing task's label, or a blank once
//! the label is exhausted or no task contains the tick; a new segment
//! starts whenever the containing task changes. A missing day renders
//! as a single alert-colored segment.

use crate::color::{color_index_spec, get_color_index};
use crate::schedule::{first_containing, tasks_view, DayState, TaskView};
use crate::time::Time;
use vstd::prelude::*;

verus! {

/// The background color of one strip segment: the terminal's default,
/// the alert color, or a palette entry.
#[derive(Clone, Copy, PartialEq, Eq, Structural, Debug)]
pub enum StripColor {
    Default,
    Alert,
    Palette(usize),
}

/// One run of the strip: a color and the text shown over it.
#[derive(Clone, PartialEq, Eq, Debug)]
pub struct Segment {
    pub color: StripColor,
    pub text: Vec<char>,
}

/// The mathematical view of a segment.
#[verifier::ext_equal]
pub struct SegView {
    pub color: StripColor,
    pub text: Seq<char>,
}

impl View for Segment {
    type V = SegView;

    open spec fn view(&self) -> SegView {
        SegView { color: self.color, text: self.text@ }
    }
}

/// The views of a sequence of segments.
pub open spec fn segs_view(s: Seq<Segment>) -> Seq<SegView> {
    s.map_values(|x: Segment| x@)
}

/// The clock value `i` minutes after `now`.
pub open spec fn tick_time(now: Time, i: int) -> Time {
    Time::spec_from_mins((now.spec_in_mins() + i) % 1440)
}

/// The task shown at tick `i`: the first task containing that minute.
pub open spec fn tick_ident(tasks: Seq<TaskView>, now: Time, i: int) -> Option<int> {
    first_containing(tasks, tick_time(now, i))
}

/// The first tick of the run that tick `i` belongs to.
pub open spec fn run_start(tasks: Seq<TaskView>, now: Time, i: int) -> int
    decreases i,
{
    if i <= 0 {
        0
    } else if tick_ident(tasks, now, i) == tick_ident(tasks, now, i - 1) {
        run_start(tasks, now, i - 1)
    } else {
        i
    }
}

/// The character shown at tick `i`: the label character at the tick's
/// position within its run, blank once the label is exhausted or no
/// task contains the tick.
pub open spec fn tick_char(tasks: Seq<TaskView>, now: Time, i: int) -> char {
    match tick_ident(tasks, now, i) {
        Some(j) => {
            let lab = tasks[j].label;
            let k = i - run_start(tasks, now, i);
            if k < lab.len() {
                lab[k]
            } else {
                ' '
            }
        },
        None => ' ',
    }
}

/// The color shown at tick `i`: the containing task's label color, or
/// the terminal default over a gap.
pub open spec fn tick_color(tasks: Seq<TaskView>, now: Time, i: int) -> StripColor {
    match tick_ident(tasks, now, i) {
        Some(j) => StripColor::Palette(color_index_spec(tasks[j].label) as usize),
        None => StripColor::Default,
    }
}

/// The strip over the first `n` ticks: each tick either starts a new
/// segment (at tick zero, or when the containing task changes) or
/// extends the last one by its character.
pub open spec fn strip_upto(tasks: Seq<TaskView>, now: Time, n: int) -> Seq<SegView>
    decreases n,
{
    if n <= 0 {
        Seq::empty()
    } else {
        let prev = strip_upto(tasks, now, n - 1);
        let c = tick_char(tasks, now, n - 1);
        if n - 1 == 0 || tick_ident(tasks, now, n - 1) != tick_ident(tasks, now, n - 2) {
            prev.push(SegView { color: tick_color(tasks, now, n - 1), text: seq![c] })
        } else {
            prev.update(
                prev.len() - 1,
                SegView { color: prev.last().color, text: prev.last().text.push(c) },
            )
        }
    }
}

/// The alert message shown when the day has no schedule.
pub open spec fn no_task_chars() -> Seq<char> {
    seq!['N', 'o', ' ', 't', 'a', 's', 'k', ' ', 's', 'e', 't']
}

/// The alert text padded with blanks to the requested width; a width
/// below the message's length keeps the whole message.
pub open spec fn alert_text(width: int) -> Seq<char> {
    no_task_chars() + Seq::new(
        if width > 11 {
            (width - 11) as nat
        } else {
            0nat
        },
        |i: int| ' ',
    )
}

fn opt_eq(a: &Option<usize>, b: &Option<usize>) -> (r: bool)
    ensures
        r == (a == b),
{
    match a {
        Some(x) => match b {
            Some(y) => *x == *y,
            None => false,
        },
        None => match b {
            Some(_) => false,
            None => true,
        },
    }
}

/// Render the strip for one day (or a missing day) over `width` ticks
/// starting at `now`.
#[verifier::rlimit(100)]
#[verifier::spinoff_prover]
pub fn render_strip(day: Option<&DayState>, now: Time, width: usize) -> (segs: Vec<Segment>)
    requires
        now.wf(),
        day matches Some(d) ==> d.wf(),
    ensures
        match day {
            Some(d) => segs_view(segs@) == strip_upto(tasks_view(d.tasks@), now, width as int),
            None => segs@.len() == 1 && segs@[0].color == StripColor::Alert && segs@[0].text@
                == alert_text(width as int),
        },
{
    match day {
        None => {
            let mut text: Vec<char> = Vec::new();
            text.push('N');
            text.push('o');
            text.push(' ');
            text.push('t');
            text.push('a');
            text.push('s');
            text.push('k');
            text.push(' ');
            text.push('s');
            text.push('e');
            text.push('t');
            proof {
                assert(text@ =~= no_task_chars());
                assert(text@ =~= no_task_chars() + Seq::new(0nat, |i: int| ' '));
            }
            while text.len() < width
                invariant
                    text@.len() >= 11,
                    text@.len() == 11 || text@.len() <= width,
                    text@ == no_task_chars() + Seq::new((text@.len() - 11) as nat, |i: int| ' '),
                decreases width - text@.len(),
            {
                text.push(' ');
                proof {
                    assert(text@ =~= no_task_chars() + Seq::new(
                        (text@.len() - 11) as nat,
                        |i: int| ' ',
                    ));
                }
            }
            let seg = Segment { color: StripColor::Alert, text };
            let mut segs: Vec<Segment> = Vec::new();
            segs.push(seg);
            proof {
                assert(segs@.len() == 1);
                assert(segs@[0].color == StripColor::Alert);
                assert(segs@[0].text@ =~= alert_text(width as int));
            }
            segs
        },
        Some(d) => {
            let ghost tv = tasks_view(d.tasks@);
            let mut segs: Vec<Segment> = Vec::new();
            let mut time = now;
            let mut prev_ident: Option<usize> = None;
            let mut rs: usize = 0;
            let mut i: usize = 0;
            proof {
                crate::time::lemma_in_mins_bounds(now);
                vstd::arithmetic::div_mod::lemma_small_mod(now.spec_in_mins() as nat, 1440);
                crate::time::lemma_from_mins_props(now.spec_in_mins() % 1440);
                crate::time::lemma_time_eq(now, tick_time(now, 0));
            }
            while i < width
                invariant
                    i <= width,
                    d.wf(),
                    now.wf(),
                    tv == tasks_view(d.tasks@),
                    time == tick_time(now, i as int),
                    time.wf(),
                    segs_view(segs@) == strip_upto(tv, now, i as int),
                    i > 0 ==> segs@.len() > 0,
                    i > 0 ==> (match prev_ident {
                        Some(j) => tick_ident(tv, now, i - 1) == Some(j as int),
                        None => tick_ident(tv, now, i - 1) is None,
                    }),
                    i > 0 ==> rs as int == run_start(tv, now, i - 1),
                    rs <= i,
                decreases width - i,
            {
                let ident = d.find_containing(time);
                proof {
                    crate::schedule::lemma_first_containing_props(tv, time);
                }
                let new_seg = i == 0 || !opt_eq(&ident, &prev_ident);
                proof {
                    if i > 0 {
                        assert((ident == prev_ident) == (tick_ident(tv, now, i as int)
                            == tick_ident(tv, now, i - 1))) by {
                            match ident {
                                Some(a) => {},
                                None => {},
                            }
                        }
                    }
                }
                if new_seg {
                    rs = i;
                }
                proof {
                    if i > 0 {
                        assert(run_start(tv, now, i as int) == (if tick_ident(tv, now, i as int)
                            == tick_ident(tv, now, i - 1) {
                            run_start(tv, now, i - 1)
                        } else {
                            i as int
                        }));
                    }
                    assert(rs as int == run_start(tv, now, i as int));
                }
                let k = i - rs;
                let ch: char = match ident {
                    Some(j) => {
                        if k < d.tasks[j].label.len() {
                            d.tasks[j].label[k]
                        } else {
                            ' '
                        }
                    },
                    None => ' ',
                };
                proof {
                    assert(ch == tick_char(tv, now, i as int));
                }
                if new_seg {
                    let color: StripColor = match ident {
                        Some(j) => StripColor::Palette(get_color_index(&d.tasks[j].label)),
                        None => StripColor::Default,
                    };
                    let seg = Segment { color, text: vec![ch] };
                    proof {
                        assert(seg@.text =~= seq![ch]);
                    }
                    segs.push(seg);
                    proof {
                        assert(segs_view(segs@) =~= strip_upto(tv, now, i + 1));
                    }
                } else {
                    let seg_opt = segs.pop();
                    match seg_opt {
                        Some(mut seg) => {
                            seg.text.push(ch);
                            segs.push(seg);
                        },
                        None => {
                            proof {
                                assert(false);
                            }
                        },
                    }
                    proof {
                        assert(segs_view(segs@) =~= strip_upto(tv, now, i + 1));
                    }
                }
                prev_ident = ident;
                time = time.add(Time::mins(1));
                proof {
                    assert(Time::spec_from_mins(1) == (Time { hour: 0, min: 1 }));
                    crate::time::lemma_from_mins_props((now.spec_in_mins() + i) % 1440);
                    vstd::arithmetic::div_mod::lemma_add_mod_noop(
                        now.spec_in_mins() + i,
                        1,
                        1440,
                    );
                    vstd::arithmetic::div_mod::lemma_mod_twice(now.spec_in_mins() + i, 1440);
                    vstd::arithmetic::div_mod::lemma_small_mod(1nat, 1440);
                    assert(time.spec_in_mins() == (now.spec_in_mins() + i + 1) % 1440);
                    crate::time::lemma_from_mins_props((now.spec_in_mins() + i + 1) % 1440);
                    crate::time::lemma_time_eq(time, tick_time(now, i + 1));
                }
                i += 1;
            }
            proof {
                assert(i == width);
                assert(segs_view(segs@) == strip_upto(tasks_view(d.tasks@), now, width as int));
            }
            segs
        },
    }
}

} // verus!
