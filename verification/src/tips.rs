//! Rotating feature-tips card. Shows one hint at a time, advances
//! automatically every few seconds (pausing while the pointer rests on it),
//! and can be hidden for the session or disabled outright.
//!
//! Times are in milliseconds on a clock that never goes back.

use crate::text::usize_to_string;
use crate::text;
use vstd::prelude::*;

verus! {

/// Milliseconds each tip stays on screen before rotating to the next.
pub const ROTATE_MS: u64 = 8000;

/// The least time between two frames that the card asks for.
pub const MIN_WAKE_MS: u64 = 50;

/// Config key storing whether tips are enabled ("true"/"false").
pub const KEY_TIPS_ENABLED: &'static str = "tips_enabled";

/// The tips themselves. Every entry describes a feature of the program.
pub const TIPS: [&'static str; 22] = [
    "Ctrl+C / Ctrl+X / Ctrl+V copy, cut and paste files — pasting lands in whichever folder you're browsing.",
    "Use F3 to copy full file path & F4 to copy folder path.",
    "Delete sends the selection to the Recycle Bin, so slips of the mouse are always recoverable.",
    "Create a unique profile for each user/scenario. Click dropdown besides Settings button.",
    "Press Ctrl+F to search a folder tree recursively, or just press * to jump straight into the filter box and narrow the list by name.",
    "Rename tabs for easy identification. They appear witha green dot.",
    "Right-click any tab to duplicate or close it — handy for comparing two folders side by side.",
    "Drag the divider between the two panes to give either side more room.",
    "Click ☆ Add to Favourites to pin the current folder to the sidebar; right-click it there to remove.",
    "Custom Actions open selected files with your favourite apps — icons are pulled straight from each exe.",
    "Every shortcut is rebindable: Settings → Keyboard Shortcuts, click Rebind, then press the new keys.",
    "You decide what lives on the toolbar — Settings → Toolbar shows or hides any button.",
    "Hold Ctrl and scroll the mouse wheel to zoom the entire interface, text included.",
    "Switching PCs? Export your settings from Settings → Advanced and import them on the other machine.",
    "Make FileMan the default folder explorer in Settings → Advanced and folders will open here, not Explorer.",
    "Prefer stacked tabs? Switch between horizontal and vertical tab strips under Settings → Appearance.",
    "Large copies and moves run in the background with a progress window — you can keep browsing meanwhile.",
    "Pin your favourite apps or files as quick-launch buttons in Settings → App Launcher / File Launcher, then find them fast by typing into the search box on the second toolbar row.",
    "Just created a folder? It's already selected — press Enter to jump straight in.",
    "Click 🕒 Recent on the toolbar to jump back to files and folders you've opened recently.",
    "Select several files, then use the \"Windows Explorer\" right-click submenu — commands like combining PDFs see your whole selection, not just the file you clicked.",
    "Click a tab in the other pane to switch focus — you don't need to click on a file row first.",
];

/// What the user did with the card in one frame.
#[derive(Debug, Clone, Copy, PartialEq, Eq, Structural)]
pub enum TipAction {
    /// Nothing happened.
    Nothing,
    /// The close button hid the card until the next launch (no persistence
    /// needed).
    Close,
    /// "Turn off" was pressed: persist the disabled state.
    Disable,
}

/// What the pointer did on the card in one frame.
#[derive(Debug, Clone, Copy, PartialEq, Eq, Structural)]
pub struct TipInput {
    pub close_clicked: bool,
    pub next_clicked: bool,
    pub turn_off_clicked: bool,
    /// The pointer rests on the card.
    pub hovered: bool,
}

/// State for the tips card: which tip is showing and when it appeared.
#[derive(Debug, Clone, Copy, PartialEq, Eq, Structural)]
pub struct TipsCard {
    pub index: usize,
    pub shown_at: u64,
    /// False once the close button hides the card for the rest of the session.
    pub visible: bool,
    /// Whether the pointer rested on the card last frame (pauses rotation).
    pub hovered: bool,
}

/// The tip that is shown after `k` advances from tip `start`.
pub open spec fn tip_after(start: int, k: nat) -> int
    decreases k,
{
    if k == 0 {
        start
    } else {
        (tip_after(start, (k - 1) as nat) + 1) % (TIPS.len() as int)
    }
}

impl TipsCard {
    /// The card shows one of the tips.
    pub open spec fn wf(self) -> bool {
        self.index < TIPS.len()
    }

    /// How long the tip has been on screen at `now`.
    pub open spec fn age(self, now: u64) -> int {
        if now >= self.shown_at {
            now - self.shown_at
        } else {
            0
        }
    }

    /// The card after an advance at `now`.
    pub open spec fn advanced(self, now: u64) -> TipsCard {
        TipsCard {
            index: ((self.index + 1) % (TIPS.len() as int)) as usize,
            shown_at: now,
            ..self
        }
    }

    /// Starts at a launch-varying tip so returning users don't always see the
    /// same first hint. `subsec_nanos` is the fraction of a second at which
    /// the program was launched.
    pub fn new(subsec_nanos: u32, now: u64) -> (r: Self)
        ensures
            r.wf(),
            r == (TipsCard {
                index: (subsec_nanos as int % TIPS.len() as int) as usize,
                shown_at: now,
                visible: true,
                hovered: false,
            }),
    {
        let index: usize = (subsec_nanos % 22) as usize;
        TipsCard { index, shown_at: now, visible: true, hovered: false }
    }

    /// Advances to the next tip and restarts the rotation timer.
    pub fn advance(&mut self, now: u64)
        requires
            old(self).wf(),
        ensures
            final(self).wf(),
            *final(self) == old(self).advanced(now),
    {
        self.index = (self.index + 1) % 22;
        self.shown_at = now;
    }

    /// Restores the card after it was hidden/disabled (Settings toggle),
    /// restarting the timer so the freshly shown tip gets its full period.
    pub fn set_visible(&mut self, visible: bool, now: u64)
        ensures
            *final(self) == (TipsCard {
                visible,
                shown_at: if visible {
                    now
                } else {
                    old(self).shown_at
                },
                ..*old(self)
            }),
    {
        self.visible = visible;
        if visible {
            self.shown_at = now;
        }
    }

    /// How long the tip has been on screen at `now`.
    pub fn elapsed(&self, now: u64) -> (r: u64)
        ensures
            r == self.age(now),
    {
        if now >= self.shown_at {
            now - self.shown_at
        } else {
            0
        }
    }

    /// Opens a frame: returns whether the card is drawn, with the tip rotated
    /// where its time is over and the pointer is elsewhere.
    pub fn begin_frame(&mut self, now: u64) -> (r: bool)
        requires
            old(self).wf(),
        ensures
            final(self).wf(),
            r == old(self).visible,
            *final(self) == (if old(self).visible && !old(self).hovered && old(self).age(now)
                >= ROTATE_MS {
                old(self).advanced(now)
            } else {
                *old(self)
            }),
    {
        if !self.visible {
            return false;
        }
        if !self.hovered && self.elapsed(now) >= ROTATE_MS {
            self.advance(now);
        }
        true
    }

    /// The text of the tip that is shown.
    pub fn tip(&self) -> (r: &'static str)
        requires
            self.wf(),
        ensures
            r@ == TIPS[self.index as int]@,
    {
        let tips: [&'static str; 22] = TIPS;
        tips[self.index]
    }

    /// The place of the tip among all tips, as in "3/22".
    pub fn counter(&self) -> (r: String)
        requires
            self.wf(),
        ensures
            r@ == text::decimal((self.index + 1) as nat) + "/"@ + text::decimal(TIPS.len() as nat),
    {
        let mut r = usize_to_string(self.index + 1);
        r.append("/");
        r.append(usize_to_string(22).as_str());
        r
    }

    /// Closes a frame in which the card was drawn. "Turn off" wins over the
    /// close button.
    pub fn end_frame(&mut self, input: TipInput, now: u64) -> (r: TipAction)
        requires
            old(self).wf(),
        ensures
            final(self).wf(),
            r == (if input.turn_off_clicked {
                TipAction::Disable
            } else if input.close_clicked {
                TipAction::Close
            } else {
                TipAction::Nothing
            }),
            *final(self) == ({
                let stepped = if input.next_clicked {
                    old(self).advanced(now)
                } else {
                    *old(self)
                };
                TipsCard {
                    visible: old(self).visible && !input.close_clicked,
                    hovered: input.hovered,
                    ..stepped
                }
            }),
    {
        let mut action = TipAction::Nothing;
        if input.close_clicked {
            self.visible = false;
            action = TipAction::Close;
        }
        if input.next_clicked {
            self.advance(now);
        }
        if input.turn_off_clicked {
            action = TipAction::Disable;
        }
        self.hovered = input.hovered;
        action
    }

    /// When the next frame is due: exactly when the tip rotates, but never so
    /// soon that the program would be kept busy.
    pub fn next_wake(&self, now: u64) -> (r: u64)
        ensures
            r == (if ROTATE_MS - self.age(now) > MIN_WAKE_MS {
                ROTATE_MS - self.age(now)
            } else {
                MIN_WAKE_MS as int
            }),
    {
        let age: u64 = self.elapsed(now);
        if age < ROTATE_MS && ROTATE_MS - age > MIN_WAKE_MS {
            ROTATE_MS - age
        } else {
            MIN_WAKE_MS
        }
    }
}

proof fn lemma_tip_after(start: int, k: nat)
    requires
        0 <= start < TIPS.len(),
    ensures
        tip_after(start, k) == (start + k) % (TIPS.len() as int),
    decreases k,
{
    if k > 0 {
        lemma_tip_after(start, (k - 1) as nat);
    }
}

/// Advancing goes through every tip before one is repeated, and then begins
/// again with the first.
pub proof fn law_every_tip_is_shown_before_one_repeats(start: int, target: int)
    requires
        0 <= start < TIPS.len(),
        0 <= target < TIPS.len(),
    ensures
        tip_after(start, TIPS.len() as nat) == start,
        exists|k: nat| k < TIPS.len() && #[trigger] tip_after(start, k) == target,
        forall|j: nat, k: nat|
            j < k < TIPS.len() ==> #[trigger] tip_after(start, j) != #[trigger] tip_after(start, k),
{
    lemma_tip_after(start, TIPS.len() as nat);
    let k: nat = if target >= start {
        (target - start) as nat
    } else {
        (target + TIPS.len() - start) as nat
    };
    lemma_tip_after(start, k);
    assert(tip_after(start, k) == target);
    assert forall|j: nat, k: nat| j < k < TIPS.len() implies #[trigger] tip_after(start, j)
        != #[trigger] tip_after(start, k) by {
        lemma_tip_after(start, j);
        lemma_tip_after(start, k);
    }
}

/// A tip gives way to the next after eight seconds, the last to the first, but
/// not while the pointer is on it or the card is closed.
pub proof fn law_tips_take_turns(now: u64)
    ensures
        forall|c: &mut TipsCard, r: bool|
            #[trigger] call_ensures(TipsCard::begin_frame, (c, now), r) && c.index < 22 ==> {
                let due = c.visible && !c.hovered && now >= c.shown_at + 8000;
                &&& r == c.visible
                &&& final(c).visible == c.visible && final(c).hovered == c.hovered
                &&& due ==> final(c).shown_at == now && final(c).index == (if c.index == 21 {
                    0
                } else {
                    c.index + 1
                })
                &&& !due ==> *final(c) == *c
            },
        forall|c: &mut TipsCard|
            #[trigger] call_ensures(TipsCard::advance, (c, now), ()) && c.index < 22 ==> {
                &&& final(c).index == (if c.index == 21 {
                    0
                } else {
                    c.index + 1
                })
                &&& final(c).visible == c.visible
            },
{
    assert(TIPS.len() == 22);
    assert forall|c: &mut TipsCard|
        #[trigger] call_ensures(TipsCard::advance, (c, now), ()) && c.index < 22 implies {
        &&& final(c).index == (if c.index == 21 {
            0
        } else {
            c.index + 1
        })
        &&& final(c).visible == c.visible
    } by {
        assert(*final(c) == c.advanced(now));
    }
}

/// The buttons of a tip do what they say: the next tip is shown, the card is
/// closed, or tips are turned off.
pub proof fn law_tip_buttons_work(input: TipInput, now: u64)
    ensures
        forall|c: &mut TipsCard, r: TipAction|
            #[trigger] call_ensures(TipsCard::end_frame, (c, input, now), r) && c.index < 22 ==> {
                &&& r == TipAction::Disable <==> input.turn_off_clicked
                &&& r == TipAction::Close <==> input.close_clicked && !input.turn_off_clicked
                &&& final(c).visible == (c.visible && !input.close_clicked)
                &&& final(c).hovered == input.hovered
                &&& !input.next_clicked ==> final(c).index == c.index
                &&& input.next_clicked ==> final(c).index == (if c.index == 21 {
                    0
                } else {
                    c.index + 1
                })
            },
{
}

/// The card is drawn again when its tip is due, at the latest after eight
/// seconds and never in less than a twentieth of a second.
pub proof fn law_the_card_wakes_in_time(c: TipsCard, now: u64, r: u64)
    requires
        call_ensures(TipsCard::next_wake, (&c, now), r),
    ensures
        50 <= r <= 8000,
        c.shown_at <= now <= c.shown_at + 7950 ==> now + r == c.shown_at + 8000,
        now >= c.shown_at + 7950 ==> r == 50,
{
}

} // verus!
