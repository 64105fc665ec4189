//! What tells several running instances of the program apart on the taskbar:
//! a slot in the order in which they were opened, an identity of their own, and
//! a colour.

use crate::text::{u64_to_string, usize_to_string};
use crate::text;
use vstd::prelude::*;

verus! {

/// Fixed palette assigned in open-order, cycling if more instances than
/// colours: blue, green, orange, purple, red, cyan.
pub const PALETTE: [(u8, u8, u8); 6] = [
    (66, 133, 244),
    (52, 168, 83),
    (251, 140, 0),
    (156, 39, 176),
    (229, 57, 53),
    (0, 172, 193),
];

/// The slot of the instance that found `counter` instances opened before it.
/// An instance that could not read the shared counter takes the first slot.
pub fn claim_instance_slot(counter: Option<u32>) -> (r: usize)
    ensures
        r < PALETTE.len(),
        r == (match counter {
            Some(n) => n as int % PALETTE.len() as int,
            None => 0,
        }),
{
    match counter {
        Some(n) => (n % 6) as usize,
        None => 0,
    }
}

/// The name of one instance on the taskbar.
pub open spec fn identity(slot: nat, pid: nat) -> Seq<char> {
    "FileMan.Instance."@ + text::decimal(slot) + "."@ + text::decimal(pid)
}

/// The taskbar identity of the process `pid` in the slot `slot`: its own, so
/// that the instance isn't grouped with others into a single shared button.
pub fn set_app_identity(slot: usize, pid: u32) -> (r: String)
    ensures
        r@ == identity(slot as nat, pid as nat),
{
    let mut r = "FileMan.Instance.".to_owned();
    r.append(usize_to_string(slot).as_str());
    r.append(".");
    r.append(u64_to_string(pid as u64).as_str());
    r
}

/// Claims this process's open-order slot and gives its taskbar identity.
pub fn claim_instance_slot_and_set_identity(counter: Option<u32>, pid: u32) -> (r: (usize, String))
    ensures
        r.0 < PALETTE.len(),
        r.0 == (match counter {
            Some(n) => n as int % PALETTE.len() as int,
            None => 0,
        }),
        r.1@ == identity(r.0 as nat, pid as nat),
{
    let slot: usize = claim_instance_slot(counter);
    let id = set_app_identity(slot, pid);
    (slot, id)
}

/// Byte `i` of an icon of one colour: blue, green, red and full alpha, pixel
/// after pixel.
pub open spec fn icon_byte(color: (u8, u8, u8), i: int) -> u8 {
    if i % 4 == 0 {
        color.2
    } else if i % 4 == 1 {
        color.1
    } else if i % 4 == 2 {
        color.0
    } else {
        255
    }
}

/// The pixels of a square icon of one colour with `side` pixels to a side.
pub open spec fn icon_pixels(color: (u8, u8, u8), side: nat) -> Seq<u8> {
    Seq::new((side * side * 4) as nat, |i: int| icon_byte(color, i))
}

/// Builds a solid-colour square icon of `side` times `side` pixels.
pub fn colored_icon(color: (u8, u8, u8), side: u16) -> (r: Vec<u8>)
    ensures
        r@ == icon_pixels(color, side as nat),
{
    assert(side * side <= 65535 * 65535) by (nonlinear_arith)
        requires
            side <= 65535,
    ;
    let pixels: usize = side as usize * side as usize;
    let mut r: Vec<u8> = Vec::new();
    let mut k: usize = 0;
    while k < pixels
        invariant
            k <= pixels,
            r@.len() == 4 * k,
            forall|i: int| 0 <= i < 4 * k ==> #[trigger] r@[i] == icon_byte(color, i),
        decreases pixels - k,
    {
        let ghost was = r@;
        r.push(color.2);
        r.push(color.1);
        r.push(color.0);
        r.push(255);
        proof {
            let at = 4 * k as int;
            assert(r@ =~= was + seq![color.2, color.1, color.0, 255u8]);
            assert(icon_byte(color, at) == color.2);
            assert(icon_byte(color, at + 1) == color.1);
            assert(icon_byte(color, at + 2) == color.0);
            assert(icon_byte(color, at + 3) == 255);
            assert forall|i: int| 0 <= i < at + 4 implies #[trigger] r@[i] == icon_byte(
                color,
                i,
            ) by {
                if i < at {
                    assert(r@[i] == was[i]);
                }
            }
        }
        k = k + 1;
    }
    assert(r@ =~= icon_pixels(color, side as nat));
    r
}

/// The large and the small icon of the instance in `slot`.
pub fn apply_instance_icon(slot: usize) -> (r: (Vec<u8>, Vec<u8>))
    ensures
        r.0@ == icon_pixels(PALETTE[slot as int % PALETTE.len() as int], 32),
        r.1@ == icon_pixels(PALETTE[slot as int % PALETTE.len() as int], 16),
{
    let palette: [(u8, u8, u8); 6] = PALETTE;
    let color: (u8, u8, u8) = palette[slot % 6];
    (colored_icon(color, 32), colored_icon(color, 16))
}

/// Instances that were opened one after the other get different colours.
pub proof fn law_neighbours_differ(n: int)
    requires
        n >= 0,
    ensures
        PALETTE[n % (PALETTE.len() as int)] != PALETTE[(n + 1) % (PALETTE.len() as int)],
{
    let k = n % 6;
    assert((n + 1) % 6 == (k + 1) % 6);
    assert(k == 0 || k == 1 || k == 2 || k == 3 || k == 4 || k == 5);
}

/// Two instances in the same slot are still told apart by their processes.
pub proof fn law_identities_differ(slot: nat, a: nat, b: nat)
    requires
        a != b,
    ensures
        identity(slot, a) != identity(slot, b),
{
    let head = "FileMan.Instance."@ + text::decimal(slot) + "."@;
    if identity(slot, a) == identity(slot, b) {
        let x = identity(slot, a);
        assert(x.subrange(head.len() as int, x.len() as int) =~= text::decimal(a));
        let y = identity(slot, b);
        assert(y.subrange(head.len() as int, y.len() as int) =~= text::decimal(b));
        text::lemma_decimal_injective(a, b);
    }
}

/// Six windows in a row have six slots, and the seventh has that of the first.
pub proof fn law_slots_take_turns(n: u32, r: usize, next: usize)
    requires
        call_ensures(claim_instance_slot, (Some(n),), r),
        n < u32::MAX,
        call_ensures(claim_instance_slot, (Some((n + 1) as u32),), next),
    ensures
        r < 6 && next < 6,
        n < 6 ==> r == n,
        next == (if r == 5 {
            0
        } else {
            r + 1
        }),
{
}

/// Every pixel of an icon has the colour of the icon, and none is transparent.
pub proof fn law_icons_have_one_colour(color: (u8, u8, u8), side: u16, r: Vec<u8>, k: int)
    requires
        call_ensures(colored_icon, (color, side), r),
        0 <= k < side * side,
    ensures
        r@.len() == side * side * 4,
        r@[4 * k] == color.2 && r@[4 * k + 1] == color.1 && r@[4 * k + 2] == color.0 && r@[4 * k
            + 3] == 255,
{
    assert((4 * k) % 4 == 0 && (4 * k + 1) % 4 == 1 && (4 * k + 2) % 4 == 2 && (4 * k + 3) % 4
        == 3);
}

} // verus!
