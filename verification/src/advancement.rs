//! Advancements: how they are announced, and the flags their display
//! information is sent with.

use vstd::prelude::*;

use crate::item::{Formatting, ItemStackCx};

verus! {

/// Global context for advancements.
pub trait AdvancementCx: ItemStackCx {}

/// Additional requirements when encoding and decoding advancements.
pub trait AdvancementEdcodeCx: AdvancementCx {
    /// Given the name of a frame's data, returns the corresponding frame.
    fn frame_fmt(name: &str) -> Frame;
}

/// What is to be done to obtain advancements.
pub trait Criterion {
    /// The tracker of the conditions.
    type Tracker;
    /// A condition of the criterion.
    type Condition;

    /// Begins tracking a condition.
    fn track_one(&mut self, tracker: Self::Tracker, condition: Self::Condition);

    /// Ends tracking a condition.
    fn untrack_one(&mut self, tracker: Self::Tracker, condition: Self::Condition);

    /// Ends tracking every condition of the tracker.
    fn untrack_all(&mut self, tracker: Self::Tracker);
}

/// Describes how an advancement will be announced in the chat.
#[derive(Debug, Clone, Copy, PartialEq, Eq, Structural)]
pub enum Frame {
    /// Regular task.
    Task,
    /// A hard challenge, sometimes hidden.
    Challenge,
    /// A regular goal.
    Goal,
}

/// What a frame is announced with.
#[derive(Debug, Clone, Copy)]
pub struct FrameData {
    /// Chat announcement text id.
    pub name: &'static str,
    /// Color.
    pub fmt: Formatting,
}

impl Frame {
    /// Turns the frame into the data it is announced with.
    pub fn data(&self) -> (r: FrameData)
        ensures
            *self == Frame::Task ==> r.name@ == "task"@ && r.fmt == Formatting::Green,
            *self == Frame::Challenge ==> r.name@ == "challenge"@ && r.fmt
                == Formatting::DarkPurple,
            *self == Frame::Goal ==> r.name@ == "goal"@ && r.fmt == Formatting::Green,
    {
        match self {
            Frame::Task => FrameData { name: "task", fmt: Formatting::Green },
            Frame::Challenge => FrameData { name: "challenge", fmt: Formatting::DarkPurple },
            Frame::Goal => FrameData { name: "goal", fmt: Formatting::Green },
        }
    }
}

/// The bit of the display flags that says a background follows.
pub const BACKGROUND_FLAG: i32 = 1;

/// The bit of the display flags that says a toast is shown.
pub const SHOW_TOAST_FLAG: i32 = 2;

/// The bit of the display flags that says the advancement is hidden.
pub const HIDDEN_FLAG: i32 = 4;

/// The display flags sent for an advancement: one bit for each of having a
/// background, showing a toast and being hidden.
pub open spec fn display_flags_spec(has_background: bool, show_toast: bool, hidden: bool) -> i32 {
    (if has_background {
        BACKGROUND_FLAG
    } else {
        0i32
    }) | (if show_toast {
        SHOW_TOAST_FLAG
    } else {
        0i32
    }) | (if hidden {
        HIDDEN_FLAG
    } else {
        0i32
    })
}

/// The display flags sent for an advancement. Whether it is announced to
/// chat is not sent.
pub fn display_flags(has_background: bool, show_toast: bool, hidden: bool) -> (r: i32)
    ensures
        r == display_flags_spec(has_background, show_toast, hidden),
{
    let b: i32 = if has_background {
        BACKGROUND_FLAG
    } else {
        0
    };
    let t: i32 = if show_toast {
        SHOW_TOAST_FLAG
    } else {
        0
    };
    let h: i32 = if hidden {
        HIDDEN_FLAG
    } else {
        0
    };
    b | t | h
}

/// What received display flags say: whether a background follows, whether
/// a toast is shown, and whether the advancement is hidden. Other bits are
/// ignored.
pub open spec fn read_display_flags_spec(i: i32) -> (bool, bool, bool) {
    (i & BACKGROUND_FLAG != 0, i & SHOW_TOAST_FLAG != 0, i & HIDDEN_FLAG != 0)
}

/// What received display flags say: whether a background follows, whether
/// a toast is shown, and whether the advancement is hidden.
pub fn read_display_flags(i: i32) -> (r: (bool, bool, bool))
    ensures
        r == read_display_flags_spec(i),
{
    ((i & BACKGROUND_FLAG) != 0, (i & SHOW_TOAST_FLAG) != 0, (i & HIDDEN_FLAG) != 0)
}

/// Reading the display flags sent for an advancement gives back what they
/// were sent for.
pub proof fn lemma_display_flags_roundtrip(has_background: bool, show_toast: bool, hidden: bool)
    ensures
        read_display_flags_spec(display_flags_spec(has_background, show_toast, hidden)) == (
            has_background,
            show_toast,
            hidden,
        ),
{
    let b: i32 = if has_background {
        1
    } else {
        0
    };
    let t: i32 = if show_toast {
        2
    } else {
        0
    };
    let h: i32 = if hidden {
        4
    } else {
        0
    };
    assert(display_flags_spec(has_background, show_toast, hidden) == b | t | h);
    assert(((b | t | h) & 1 != 0) == (b == 1) && ((b | t | h) & 2 != 0) == (t == 2) && ((b | t
        | h) & 4 != 0) == (h == 4)) by (bit_vector)
        requires
            b == 0 || b == 1,
            t == 0 || t == 2,
            h == 0 || h == 4,
    ;
}

} // verus!
