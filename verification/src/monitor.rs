//! Which monitor a restored window goes to.

use crate::text::str_eq;
use vstd::prelude::*;

verus! {

/// A connected monitor.
#[derive(Debug, PartialEq, Eq)]
pub struct MonitorInfo {
    /// The device name, as in `\\.\DISPLAY1`.
    pub name: String,
    pub is_primary: bool,
}

/// `i` is the first place whose monitor is called `name`.
pub open spec fn first_named(monitors: Seq<MonitorInfo>, name: Seq<char>, i: int) -> bool {
    0 <= i < monitors.len() && monitors[i].name@ == name && forall|j: int|
        0 <= j < i ==> (#[trigger] monitors[j]).name@ != name
}

/// `i` is the first place of a primary monitor.
pub open spec fn first_primary(monitors: Seq<MonitorInfo>, i: int) -> bool {
    0 <= i < monitors.len() && monitors[i].is_primary && forall|j: int|
        0 <= j < i ==> !(#[trigger] monitors[j]).is_primary
}

/// A monitor is called `name`.
pub open spec fn connected(monitors: Seq<MonitorInfo>, name: Seq<char>) -> bool {
    exists|i: int| 0 <= i < monitors.len() && (#[trigger] monitors[i]).name@ == name
}

/// A monitor is primary.
pub open spec fn any_primary(monitors: Seq<MonitorInfo>) -> bool {
    exists|i: int| 0 <= i < monitors.len() && (#[trigger] monitors[i]).is_primary
}

fn find_named(monitors: &Vec<MonitorInfo>, name: &str) -> (r: Option<usize>)
    ensures
        match r {
            Some(i) => first_named(monitors@, name@, i as int),
            None => !connected(monitors@, name@),
        },
{
    let mut i: usize = 0;
    while i < monitors.len()
        invariant
            i <= monitors.len(),
            forall|j: int| 0 <= j < i ==> (#[trigger] monitors@[j]).name@ != name@,
        decreases monitors.len() - i,
    {
        if str_eq(monitors[i].name.as_str(), name) {
            return Some(i);
        }
        i = i + 1;
    }
    None
}

fn find_primary(monitors: &Vec<MonitorInfo>) -> (r: Option<usize>)
    ensures
        match r {
            Some(i) => first_primary(monitors@, i as int),
            None => !any_primary(monitors@),
        },
{
    let mut i: usize = 0;
    while i < monitors.len()
        invariant
            i <= monitors.len(),
            forall|j: int| 0 <= j < i ==> !(#[trigger] monitors@[j]).is_primary,
        decreases monitors.len() - i,
    {
        if monitors[i].is_primary {
            return Some(i);
        }
        i = i + 1;
    }
    None
}

/// The monitor on which a window is restored: the one it was on, by its stable
/// device name; if that is no longer connected, the primary monitor rather than
/// a place off the screen; failing that, the first.
pub fn choose_monitor(saved: Option<&str>, monitors: &Vec<MonitorInfo>) -> (r: Option<usize>)
    ensures
        match r {
            Some(i) => if saved is Some && connected(monitors@, saved->0@) {
                first_named(monitors@, saved->0@, i as int)
            } else if any_primary(monitors@) {
                first_primary(monitors@, i as int)
            } else {
                i == 0 && monitors@.len() > 0
            },
            None => monitors@.len() == 0,
        },
{
    match saved {
        Some(name) => {
            match find_named(monitors, name) {
                Some(i) => {
                    assert(connected(monitors@, name@));
                    return Some(i);
                },
                None => {},
            }
        },
        None => {},
    }
    match find_primary(monitors) {
        Some(i) => {
            assert(any_primary(monitors@));
            Some(i)
        },
        None => if monitors.len() > 0 {
            Some(0)
        } else {
            None
        },
    }
}

/// A window goes back to the monitor it was on while that is connected, and to
/// the primary one otherwise; it always finds a monitor where there is one.
pub proof fn law_windows_return_to_their_monitor(
    saved: Option<&str>,
    monitors: &Vec<MonitorInfo>,
    r: Option<usize>,
    k: int,
)
    requires
        call_ensures(choose_monitor, (saved, monitors), r),
        0 <= k < monitors@.len(),
    ensures
        r is Some && r->0 < monitors@.len(),
        saved is Some && monitors@[k].name@ == saved->0@ ==> monitors@[r->0 as int].name@
            == saved->0@ && r->0 <= k,
        (saved is None || forall|j: int|
            0 <= j < monitors@.len() ==> (#[trigger] monitors@[j]).name@ != saved->0@)
            && monitors@[k].is_primary ==> monitors@[r->0 as int].is_primary && r->0 <= k,
{
    if saved is Some && monitors@[k].name@ == saved->0@ {
        assert(connected(monitors@, saved->0@));
    }
    if monitors@[k].is_primary {
        assert(any_primary(monitors@));
    }
}

} // verus!
