//! The banner that shows a status message for a while, and the pace at which
//! changes are saved.

use crate::text::str_eq;
use vstd::prelude::*;

verus! {

/// How long a message is shown, in milliseconds.
pub const TOAST_MS: u64 = 3000;

/// How long to wait between two saves, in milliseconds.
pub const PERSIST_MS: u64 = 500;

/// How many milliseconds have passed between two times.
pub open spec fn since(then: u64, now: u64) -> int {
    if now >= then {
        now - then
    } else {
        0
    }
}

fn elapsed(then: u64, now: u64) -> (r: u64)
    ensures
        r == since(then, now),
{
    if now >= then {
        now - then
    } else {
        0
    }
}

/// The state of the banner.
#[derive(Debug, PartialEq)]
pub struct Toast {
    /// The last status that was seen.
    pub last_status: String,
    /// The message that is shown.
    pub message: Option<String>,
    pub shown_at: u64,
}

impl Toast {
    /// No banner.
    pub fn new() -> (r: Self)
        ensures
            r.last_status@ == ""@,
            r.message is None,
            r.shown_at == 0,
    {
        Toast { last_status: "".to_owned(), message: None, shown_at: 0 }
    }

    /// The banner once the status was looked at, before it may run out.
    pub open spec fn noticed(self, after: Toast, status: Seq<char>, now: u64) -> bool {
        if status == self.last_status@ {
            after == self
        } else {
            &&& after.last_status@ == status
            &&& if status.len() > 0 {
                (after.message matches Some(m) && m@ == status) && after.shown_at == now
            } else {
                after.message == self.message && after.shown_at == self.shown_at
            }
        }
    }

    /// Shows a status that has changed, and hides a message that was shown long
    /// enough. Returns how long the message stays, if one is shown.
    pub fn frame(&mut self, status: &str, now: u64) -> (r: Option<u64>)
        ensures
            exists|mid: Toast| #[trigger]
                old(self).noticed(mid, status@, now) && match mid.message {
                    None => *final(self) == mid && r is None,
                    Some(m) => if since(mid.shown_at, now) >= TOAST_MS {
                        *final(self) == (Toast { message: None, ..mid }) && r is None
                    } else {
                        *final(self) == mid && r == Some(
                            (TOAST_MS - since(mid.shown_at, now)) as u64,
                        )
                    },
                },
    {
        if !str_eq(status, self.last_status.as_str()) {
            self.last_status = status.to_owned();
            if status.unicode_len() > 0 {
                self.message = Some(status.to_owned());
                self.shown_at = now;
            }
        }
        let ghost mid = *self;
        assert(old(self).noticed(mid, status@, now));
        if self.message.is_none() {
            return None;
        }
        let age: u64 = elapsed(self.shown_at, now);
        if age >= TOAST_MS {
            self.message = None;
            None
        } else {
            Some(TOAST_MS - age)
        }
    }
}

/// Changes are saved at most twice a second.
pub fn should_persist(dirty: bool, last: u64, now: u64) -> (r: bool)
    ensures
        r == (dirty && since(last, now) >= PERSIST_MS),
{
    dirty && elapsed(last, now) >= PERSIST_MS
}

/// A message is shown when it comes up, and no longer than its time.
pub proof fn law_messages_pass(before: Toast, mid: Toast, status: Seq<char>, now: u64, later: u64)
    requires
        before.noticed(mid, status, now),
        status != before.last_status@,
        status.len() > 0,
        later >= now + TOAST_MS,
    ensures
        mid.message matches Some(m) && m@ == status,
        since(mid.shown_at, now) == 0,
        since(mid.shown_at, later) >= TOAST_MS,
{
}

/// A new message is shown for three seconds, and the same message is not shown
/// anew; nothing but a new message, or the end of its time, changes what is
/// shown.
pub proof fn law_messages_are_shown_for_a_while(status: &str, now: u64)
    ensures
        forall|t: &mut Toast, r: Option<u64>|
            #[trigger] call_ensures(Toast::frame, (t, status, now), r) ==> {
                &&& final(t).last_status@ == status@
                &&& status@ != t.last_status@ && status@.len() > 0 ==> (final(
                    t
                ).message matches Some(m) && m@ == status@) && final(t).shown_at == now && r == Some(
                    3000u64,
                )
                &&& (status@ == t.last_status@ || status@.len() == 0) && t.message is Some && now
                    >= t.shown_at && now - t.shown_at >= 3000 ==> final(t).message is None && r
                    is None
                &&& (status@ == t.last_status@ || status@.len() == 0) && t.message is Some && now
                    >= t.shown_at && now - t.shown_at < 3000 ==> final(t).message == t.message
                    && r == Some((3000 - (now - t.shown_at)) as u64)
                &&& (status@ == t.last_status@ || status@.len() == 0) && t.message is None ==> final(
                    t
                ).message is None && r is None
            },
{
}

/// Changes are saved, but no more often than twice a second.
pub proof fn law_saving_waits(dirty: bool, last: u64, now: u64, r: bool)
    requires
        call_ensures(should_persist, (dirty, last, now), r),
    ensures
        r <==> dirty && now >= last + 500,
{
}

} // verus!
