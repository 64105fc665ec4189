//! Catching the key combination that an action is bound to next.

use crate::actions::{ActionRef, KeyCombo, KeyInput};
use crate::shortcuts::ShortcutMap;
use crate::text::str_eq;
use crate::{actions, shortcuts};
use vstd::prelude::*;

verus! {

/// The modifier keys that are held.
#[derive(Debug, Clone, Copy, PartialEq, Eq, Structural)]
pub struct Held {
    pub ctrl: bool,
    pub shift: bool,
    pub alt: bool,
}

/// What came in from the keyboard and the clipboard keys.
#[derive(Debug, PartialEq, Eq)]
pub enum InputEvent {
    /// A key went down, or up, or is repeating.
    Key { name: String, pressed: bool, repeat: bool, held: Held },
    /// The keys of the clipboard arrive as events of their own.
    Copy,
    Cut,
    Paste,
    /// Anything else.
    Other,
}

/// The key that a clipboard event stands for.
pub open spec fn clipboard_key(e: InputEvent) -> Option<Seq<char>> {
    match e {
        InputEvent::Copy => Some("C"@),
        InputEvent::Cut => Some("X"@),
        InputEvent::Paste => Some("V"@),
        _ => None,
    }
}

/// The key of the last clipboard event.
pub open spec fn last_clipboard_key(events: Seq<InputEvent>) -> Option<Seq<char>>
    decreases events.len(),
{
    if events.len() == 0 {
        None
    } else {
        match clipboard_key(events.last()) {
            Some(k) => Some(k),
            None => last_clipboard_key(events.drop_last()),
        }
    }
}

/// The combination of the keys that are held and the key of the last clipboard
/// event.
///
/// Ctrl+C, Ctrl+X and Ctrl+V never arrive as key events, but as clipboard
/// events; this maps such an event back, so that shortcuts and rebinding treat
/// it like any other key combination.
pub fn clipboard_event_combo(events: &Vec<InputEvent>, held: Held) -> (r: Option<KeyCombo>)
    ensures
        match r {
            Some(c) => last_clipboard_key(events@) == Some(c.key@) && c@ == (
                held.ctrl,
                held.shift,
                held.alt,
                c.key@,
            ),
            None => last_clipboard_key(events@) is None,
        },
{
    let mut i: usize = events.len();
    assert(events@.subrange(0, i as int) =~= events@);
    while i > 0
        invariant
            i <= events.len(),
            last_clipboard_key(events@) == last_clipboard_key(events@.subrange(0, i as int)),
        decreases i,
    {
        i = i - 1;
        proof {
            let upto = events@.subrange(0, i + 1);
            assert(upto.drop_last() =~= events@.subrange(0, i as int));
            assert(upto.last() == events@[i as int]);
        }
        let key: Option<&'static str> = match &events[i] {
            InputEvent::Copy => Some("C"),
            InputEvent::Cut => Some("X"),
            InputEvent::Paste => Some("V"),
            _ => None,
        };
        match key {
            Some(k) => {
                return Some(KeyCombo::new(held.ctrl, held.shift, held.alt, k));
            },
            None => {},
        }
    }
    None
}

/// `name` is no key to bind: a modifier on its own, or one of the dedicated
/// clipboard keys.
pub open spec fn synthetic(name: Seq<char>) -> bool {
    ||| name == "Copy"@
    ||| name == "Cut"@
    ||| name == "Paste"@
    ||| name == "ShiftLeft"@
    ||| name == "ShiftRight"@
    ||| name == "ControlLeft"@
    ||| name == "ControlRight"@
    ||| name == "AltLeft"@
    ||| name == "AltRight"@
    ||| name == "SuperLeft"@
    ||| name == "SuperRight"@
}

fn is_synthetic(name: &str) -> (r: bool)
    ensures
        r == synthetic(name@),
{
    str_eq(name, "Copy") || str_eq(name, "Cut") || str_eq(name, "Paste") || str_eq(
        name,
        "ShiftLeft",
    ) || str_eq(name, "ShiftRight") || str_eq(name, "ControlLeft") || str_eq(name, "ControlRight")
        || str_eq(name, "AltLeft") || str_eq(name, "AltRight") || str_eq(name, "SuperLeft")
        || str_eq(name, "SuperRight")
}

/// `e` is a key that can be bound, going down for the first time.
pub open spec fn bindable(e: InputEvent) -> bool {
    e matches InputEvent::Key { name, pressed, repeat, held } && pressed && !repeat && !synthetic(
        name@,
    )
}

/// The last key that can be bound, with the modifiers that were held.
pub open spec fn last_bindable(events: Seq<InputEvent>) -> Option<actions::ComboView>
    decreases events.len(),
{
    if events.len() == 0 {
        None
    } else if bindable(events.last()) {
        let e = events.last();
        Some((e->held.ctrl, e->held.shift, e->held.alt, e->name@))
    } else {
        last_bindable(events.drop_last())
    }
}

fn last_key_combo(events: &Vec<InputEvent>) -> (r: Option<KeyCombo>)
    ensures
        match r {
            Some(c) => last_bindable(events@) == Some(c@),
            None => last_bindable(events@) is None,
        },
{
    let mut i: usize = events.len();
    assert(events@.subrange(0, i as int) =~= events@);
    while i > 0
        invariant
            i <= events.len(),
            last_bindable(events@) == last_bindable(events@.subrange(0, i as int)),
        decreases i,
    {
        i = i - 1;
        proof {
            let upto = events@.subrange(0, i + 1);
            assert(upto.drop_last() =~= events@.subrange(0, i as int));
            assert(upto.last() == events@[i as int]);
        }
        match &events[i] {
            InputEvent::Key { name, pressed, repeat, held } => {
                if *pressed && !*repeat && !is_synthetic(name.as_str()) {
                    return Some(KeyCombo::new(held.ctrl, held.shift, held.alt, name.as_str()));
                }
            },
            _ => {},
        }
    }
    None
}

/// Escape went down.
pub open spec fn escapes(events: Seq<InputEvent>) -> bool {
    exists|i: int|
        0 <= i < events.len() && (#[trigger] events[i] matches InputEvent::Key {
            name,
            pressed,
            repeat,
            held,
        } && pressed && name@ == "Escape"@)
}

fn has_escape(events: &Vec<InputEvent>) -> (r: bool)
    ensures
        r == escapes(events@),
{
    let mut i: usize = 0;
    while i < events.len()
        invariant
            i <= events.len(),
            !escapes(events@.subrange(0, i as int)),
        decreases events.len() - i,
    {
        let hit: bool = match &events[i] {
            InputEvent::Key { name, pressed, repeat, held } => *pressed && str_eq(
                name.as_str(),
                "Escape",
            ),
            _ => false,
        };
        if hit {
            assert(escapes(events@));
            return true;
        }
        assert forall|k: int| 0 <= k < i + 1 implies !(#[trigger] events@.subrange(
            0,
            i + 1,
        )[k] matches InputEvent::Key { name, pressed, repeat, held } && pressed && name@
            == "Escape"@) by {
            if k < i {
                assert(events@.subrange(0, i as int)[k] == events@[k]);
            }
        }
        i = i + 1;
    }
    assert(events@.subrange(0, events@.len() as int) =~= events@);
    false
}

/// What the input of one frame means while an action waits for its new keys.
#[derive(Debug, PartialEq, Eq)]
pub enum Capture {
    /// Nothing to bind has come yet.
    Waiting,
    /// The user gave up.
    Cancelled,
    /// These keys are to be bound.
    Caught(KeyCombo),
}

/// What a frame of input catches: Escape cancels, and the last combination
/// that can be bound counts.
pub open spec fn captures(events: Seq<InputEvent>, held: Held, r: Capture) -> bool {
    if escapes(events) {
        r == Capture::Cancelled
    } else {
        match last_clipboard_key(events) {
            Some(k) => r matches Capture::Caught(c) && c@ == (held.ctrl, held.shift, held.alt, k),
            None => match last_bindable(events) {
                Some(b) => r matches Capture::Caught(c) && c@ == b,
                None => r == Capture::Waiting,
            },
        }
    }
}

/// Reads the input of one frame while an action waits for its new keys. Escape
/// gives up. Holding Ctrl and Shift before C arrives sends events for Ctrl and
/// Shift first, so those are passed over and the last real key counts.
pub fn capture(events: &Vec<InputEvent>, held: Held) -> (r: Capture)
    ensures
        captures(events@, held, r),
{
    if has_escape(events) {
        return Capture::Cancelled;
    }
    match clipboard_event_combo(events, held) {
        Some(c) => Capture::Caught(c),
        None => match last_key_combo(events) {
            Some(c) => Capture::Caught(c),
            None => Capture::Waiting,
        },
    }
}

/// The action that the input of one frame triggers: by a combination that is
/// down, or else by the last clipboard event.
pub fn triggered_action(
    map: &ShortcutMap,
    input: &KeyInput,
    events: &Vec<InputEvent>,
    held: Held,
) -> (r: Option<ActionRef>)
    requires
        map.wf(),
    ensures
        (exists|c: actions::ComboView| #[trigger]
            map@.contains_key(c) && shortcuts::is_down(c, *input)) ==> exists|c: actions::ComboView|
            map@.contains_key(c) && shortcuts::is_down(c, *input) && r == Some(#[trigger] map@[c]),
        (forall|c: actions::ComboView| #[trigger]
            map@.contains_key(c) ==> !shortcuts::is_down(c, *input)) ==> r == (
        match last_clipboard_key(events@) {
            Some(k) => {
                let c = (held.ctrl, held.shift, held.alt, k);
                if map@.contains_key(c) {
                    Some(map@[c])
                } else {
                    None
                }
            },
            None => None,
        }),
{
    match map.triggered(input) {
        Some(a) => Some(a),
        None => match clipboard_event_combo(events, held) {
            Some(c) => map.get(&c),
            None => None,
        },
    }
}

// ---------------------------------------------------------------------------
// Which keys are caught
// ---------------------------------------------------------------------------

/// `e` is a key going down for the first time.
pub open spec fn goes_down(e: InputEvent) -> bool {
    e matches InputEvent::Key { name, pressed, repeat, held } && pressed && !repeat
}

/// `e` is one of the clipboard's own events.
pub open spec fn of_clipboard(e: InputEvent) -> bool {
    e is Copy || e is Cut || e is Paste
}

proof fn lemma_no_clipboard_key(events: Seq<InputEvent>)
    requires
        forall|j: int| 0 <= j < events.len() ==> !of_clipboard(#[trigger] events[j]),
    ensures
        last_clipboard_key(events) is None,
    decreases events.len(),
{
    if events.len() > 0 {
        assert(!of_clipboard(events[events.len() - 1]));
        assert forall|j: int| 0 <= j < events.drop_last().len() implies !of_clipboard(
            #[trigger] events.drop_last()[j],
        ) by {
            assert(events.drop_last()[j] == events[j]);
        }
        lemma_no_clipboard_key(events.drop_last());
    }
}

proof fn lemma_last_clipboard_key(events: Seq<InputEvent>, i: int)
    requires
        0 <= i < events.len(),
        of_clipboard(events[i]),
        forall|j: int| i < j < events.len() ==> !of_clipboard(#[trigger] events[j]),
    ensures
        last_clipboard_key(events) == clipboard_key(events[i]),
    decreases events.len(),
{
    if i < events.len() - 1 {
        assert(!of_clipboard(events[events.len() - 1]));
        assert forall|j: int| i < j < events.drop_last().len() implies !of_clipboard(
            #[trigger] events.drop_last()[j],
        ) by {
            assert(events.drop_last()[j] == events[j]);
        }
        lemma_last_clipboard_key(events.drop_last(), i);
    }
}

proof fn lemma_last_bindable(events: Seq<InputEvent>, i: int)
    requires
        0 <= i < events.len(),
        bindable(events[i]),
        forall|j: int| i < j < events.len() ==> !bindable(#[trigger] events[j]),
    ensures
        last_bindable(events) == Some(
            (
                events[i]->held.ctrl,
                events[i]->held.shift,
                events[i]->held.alt,
                events[i]->name@,
            ),
        ),
    decreases events.len(),
{
    if i < events.len() - 1 {
        assert(!bindable(events[events.len() - 1]));
        assert forall|j: int| i < j < events.drop_last().len() implies !bindable(
            #[trigger] events.drop_last()[j],
        ) by {
            assert(events.drop_last()[j] == events[j]);
        }
        lemma_last_bindable(events.drop_last(), i);
    }
}

proof fn lemma_nothing_bindable(events: Seq<InputEvent>)
    requires
        forall|j: int| 0 <= j < events.len() ==> !bindable(#[trigger] events[j]),
    ensures
        last_bindable(events) is None,
    decreases events.len(),
{
    if events.len() > 0 {
        assert(!bindable(events[events.len() - 1]));
        assert forall|j: int| 0 <= j < events.drop_last().len() implies !bindable(
            #[trigger] events.drop_last()[j],
        ) by {
            assert(events.drop_last()[j] == events[j]);
        }
        lemma_nothing_bindable(events.drop_last());
    }
}

/// The last key that goes down is caught, with the modifiers that were held
/// with it, unless it is a modifier itself, Escape is among the keys, or the
/// clipboard keys were used.
pub proof fn law_the_last_key_is_caught(events: &Vec<InputEvent>, held: Held, r: Capture, i: int)
    requires
        call_ensures(capture, (events, held), r),
        0 <= i < events@.len(),
        goes_down(events@[i]),
        !synthetic(events@[i]->name@),
        forall|j: int| i < j < events@.len() ==> !goes_down(#[trigger] events@[j]) || synthetic(
            events@[j]->name@,
        ),
        forall|j: int| 0 <= j < events@.len() ==> !of_clipboard(#[trigger] events@[j]),
        forall|j: int|
            0 <= j < events@.len() && events@[j] is Key && events@[j]->pressed
                ==> (#[trigger] events@[j])->name@ != "Escape"@,
    ensures
        r matches Capture::Caught(c) && c@ == (
            events@[i]->held.ctrl,
            events@[i]->held.shift,
            events@[i]->held.alt,
            events@[i]->name@,
        ),
{
    lemma_no_clipboard_key(events@);
    lemma_last_bindable(events@, i);
}

/// While only modifiers go down, and keys go up or repeat, nothing is caught.
pub proof fn law_modifiers_alone_are_not_caught(events: &Vec<InputEvent>, held: Held, r: Capture)
    requires
        call_ensures(capture, (events, held), r),
        forall|j: int|
            0 <= j < events@.len() ==> (#[trigger] events@[j] is Other || events@[j] is Key && !(
            events@[j]->pressed && events@[j]->name@ == "Escape"@) && (!goes_down(events@[j])
                || events@[j]->name@ == "ShiftLeft"@ || events@[j]->name@ == "ShiftRight"@
                || events@[j]->name@ == "ControlLeft"@ || events@[j]->name@ == "ControlRight"@
                || events@[j]->name@ == "AltLeft"@ || events@[j]->name@ == "AltRight"@)),
    ensures
        r == Capture::Waiting,
{
    assert forall|j: int| 0 <= j < events@.len() implies !of_clipboard(#[trigger] events@[j]) by {}
    assert forall|j: int| 0 <= j < events@.len() implies !bindable(#[trigger] events@[j]) by {}
    lemma_no_clipboard_key(events@);
    lemma_nothing_bindable(events@);
}

/// Escape gives up, whatever else comes in.
pub proof fn law_escape_gives_up(events: &Vec<InputEvent>, held: Held, r: Capture, i: int)
    requires
        call_ensures(capture, (events, held), r),
        0 <= i < events@.len(),
        events@[i] is Key && events@[i]->pressed && events@[i]->name@ == "Escape"@,
    ensures
        r == Capture::Cancelled,
{
    assert(escapes(events@));
}

/// The last clipboard event stands for its letter, with the modifiers that are
/// held, and an action that is bound to that combination is triggered by it
/// where nothing else is.
pub proof fn law_clipboard_keys_are_keys(
    events: &Vec<InputEvent>,
    held: Held,
    i: int,
    r: Option<KeyCombo>,
    map: &ShortcutMap,
    input: &KeyInput,
    a: Option<ActionRef>,
)
    requires
        call_ensures(clipboard_event_combo, (events, held), r),
        call_ensures(triggered_action, (map, input, events, held), a),
        0 <= i < events@.len(),
        of_clipboard(events@[i]),
        forall|j: int| i < j < events@.len() ==> !of_clipboard(#[trigger] events@[j]),
    ensures
        r matches Some(c) && c@ == (
            held.ctrl,
            held.shift,
            held.alt,
            match events@[i] {
                InputEvent::Copy => "C"@,
                InputEvent::Cut => "X"@,
                _ => "V"@,
            },
        ),
        (forall|c: actions::ComboView| #[trigger]
            map@.contains_key(c) ==> !shortcuts::is_down(c, *input)) ==> (a is Some
            <==> map@.contains_key(r->0@)) && (a is Some ==> a->0 == map@[r->0@]),
{
    lemma_last_clipboard_key(events@, i);
}

} // verus!
