//! The entries that the shell of the operating system adds to the context menu
//! of a file.

use crate::path::{file_name, parent};
use crate::text::{str_eq, wide_text};
use crate::{path, text};
use vstd::prelude::*;

verus! {

// ---------------------------------------------------------------------------
// Reading a menu
// ---------------------------------------------------------------------------

/// A single item of the shell context menu.
#[derive(Debug, PartialEq, Eq)]
pub struct ShellMenuItem {
    pub label: String,
    pub id: u32,
    pub disabled: bool,
    pub separator: bool,
    pub sub_items: Vec<ShellMenuItem>,
}

/// An item as the operating system describes it.
#[derive(Debug, PartialEq, Eq)]
pub struct RawMenuItem {
    pub id: u32,
    /// The item is drawn by its owner and has no text.
    pub owner_draw: bool,
    pub separator: bool,
    pub disabled: bool,
    /// The text, in a buffer that a zero ends.
    pub label: Vec<u16>,
    /// The items of the submenu; none where there is no submenu.
    pub sub_items: Vec<RawMenuItem>,
}

/// What is shown of an item.
#[verifier::ext_equal]
pub struct MenuModel {
    pub label: Seq<char>,
    pub id: u32,
    pub disabled: bool,
    pub separator: bool,
    pub sub_items: Seq<MenuModel>,
}

/// What is shown of `item`.
pub open spec fn item_model(item: ShellMenuItem) -> MenuModel
    decreases item,
{
    MenuModel {
        label: item.label@,
        id: item.id,
        disabled: item.disabled,
        separator: item.separator,
        sub_items: menu_model(item.sub_items@),
    }
}

/// What is shown of a menu.
pub open spec fn menu_model(items: Seq<ShellMenuItem>) -> Seq<MenuModel>
    decreases items,
{
    if items.len() == 0 {
        Seq::empty()
    } else {
        menu_model(items.drop_last()).push(item_model(items.last()))
    }
}

/// `menu` has an entry with the text `label`.
pub open spec fn has_label(menu: Seq<MenuModel>, label: Seq<char>) -> bool {
    exists|i: int|
        0 <= i < menu.len() && !(#[trigger] menu[i]).separator && menu[i].label == label
}

/// The menu that is made of what the operating system describes: without the
/// items that draw themselves, and with the first of several items of the same
/// text only. Separators stay.
pub open spec fn menu_of(raw: Seq<RawMenuItem>) -> Seq<MenuModel>
    decreases raw,
{
    if raw.len() == 0 {
        Seq::empty()
    } else {
        let before = menu_of(raw.drop_last());
        let r = raw.last();
        let label = text::wide_text_of(r.label@);
        if r.owner_draw {
            before
        } else if r.separator {
            before.push(
                MenuModel {
                    label: Seq::empty(),
                    id: r.id,
                    disabled: false,
                    separator: true,
                    sub_items: Seq::empty(),
                },
            )
        } else if has_label(before, label) {
            before
        } else {
            before.push(
                MenuModel {
                    label,
                    id: r.id,
                    disabled: r.disabled,
                    separator: false,
                    sub_items: menu_of(r.sub_items@),
                },
            )
        }
    }
}

proof fn lemma_menu_model(items: Seq<ShellMenuItem>)
    ensures
        menu_model(items).len() == items.len(),
        forall|i: int|
            0 <= i < items.len() ==> #[trigger] menu_model(items)[i] == item_model(items[i]),
    decreases items.len(),
{
    if items.len() > 0 {
        lemma_menu_model(items.drop_last());
        assert forall|i: int| 0 <= i < items.len() implies #[trigger] menu_model(items)[i]
            == item_model(items[i]) by {
            if i < items.len() - 1 {
                assert(menu_model(items.drop_last())[i] == item_model(items.drop_last()[i]));
            }
        }
    }
}

proof fn lemma_push(items: Seq<ShellMenuItem>, item: ShellMenuItem)
    ensures
        menu_model(items.push(item)) == menu_model(items).push(
            MenuModel {
                label: item.label@,
                id: item.id,
                disabled: item.disabled,
                separator: item.separator,
                sub_items: menu_model(item.sub_items@),
            },
        ),
{
    reveal_with_fuel(item_model, 2);
    reveal_with_fuel(menu_model, 3);
    assert(items.push(item).drop_last() =~= items);
    assert(items.push(item).last() == item);
}

/// Whether `items` hold an entry with the text `label`.
fn seen_label(items: &Vec<ShellMenuItem>, label: &str) -> (r: bool)
    ensures
        r == has_label(menu_model(items@), label@),
{
    let mut i: usize = 0;
    proof {
        lemma_menu_model(items@);
    }
    let ghost menu = menu_model(items@);
    while i < items.len()
        invariant
            i <= items.len(),
            menu == menu_model(items@),
            menu.len() == items@.len(),
            forall|j: int| 0 <= j < items@.len() ==> #[trigger] menu[j] == item_model(items@[j]),
            forall|j: int|
                0 <= j < i ==> (#[trigger] menu[j]).separator || menu[j].label != label@,
        decreases items.len() - i,
    {
        assert(menu[i as int] == item_model(items@[i as int]));
        if !items[i].separator && str_eq(items[i].label.as_str(), label) {
            return true;
        }
        i = i + 1;
    }
    false
}

/// Makes the menu of the items that the operating system describes.
///
/// Some shell extensions register under more than one path and each
/// registration adds its own identical-looking item, so the same label can
/// come back twice. Only the first is kept.
pub fn enumerate_menu(raw: &Vec<RawMenuItem>) -> (r: Vec<ShellMenuItem>)
    ensures
        menu_model(r@) == menu_of(raw@),
    decreases raw@,
{
    let mut items: Vec<ShellMenuItem> = Vec::new();
    let mut i: usize = 0;
    assert(raw@.subrange(0, 0) =~= Seq::<RawMenuItem>::empty());
    while i < raw.len()
        invariant
            i <= raw.len(),
            menu_model(items@) == menu_of(raw@.subrange(0, i as int)),
        decreases raw.len() - i,
    {
        let ghost was = items@;
        proof {
            let upto = raw@.subrange(0, i + 1);
            assert(upto.drop_last() =~= raw@.subrange(0, i as int));
            assert(upto.last() == raw@[i as int]);
        }
        let item = &raw[i];
        if !item.owner_draw {
            if item.separator {
                items.push(
                    ShellMenuItem {
                        label: String::new(),
                        id: item.id,
                        disabled: false,
                        separator: true,
                        sub_items: Vec::new(),
                    },
                );
                proof {
                    lemma_push(was, items@.last());
                    assert(items@.last().label@ =~= Seq::<char>::empty());
                    assert(items@ =~= was.push(items@.last()));
                }
            } else {
                let label = wide_text(&item.label);
                if !seen_label(&items, label.as_str()) {
                    assert(decreases_to!(raw@ => raw@[i as int]));
                    let sub_items = enumerate_menu(&item.sub_items);
                    items.push(
                        ShellMenuItem {
                            label,
                            id: item.id,
                            disabled: item.disabled,
                            separator: false,
                            sub_items,
                        },
                    );
                    proof {
                        lemma_push(was, items@.last());
                        assert(items@ =~= was.push(items@.last()));
                    }
                }
            }
        }
        i = i + 1;
    }
    assert(raw@.subrange(0, raw@.len() as int) =~= raw@);
    items
}

/// The items that the shell offers; none where it could not be asked.
pub fn query_items(raw: Option<Vec<RawMenuItem>>) -> (r: Vec<ShellMenuItem>)
    ensures
        menu_model(r@) == (match raw {
            Some(items) => menu_of(items@),
            None => Seq::empty(),
        }),
{
    match raw {
        Some(items) => enumerate_menu(&items),
        None => {
            let none: Vec<ShellMenuItem> = Vec::new();
            none
        },
    }
}

/// No two entries of a menu have the same text.
pub proof fn law_labels_are_unique(raw: Seq<RawMenuItem>)
    ensures
        forall|i: int, j: int|
            0 <= i < j < menu_of(raw).len() && !(#[trigger] menu_of(raw)[i]).separator && !(
            #[trigger] menu_of(raw)[j]).separator ==> menu_of(raw)[i].label != menu_of(
                raw,
            )[j].label,
    decreases raw.len(),
{
    if raw.len() > 0 {
        law_labels_are_unique(raw.drop_last());
        let before = menu_of(raw.drop_last());
        let all = menu_of(raw);
        assert forall|i: int, j: int|
            0 <= i < j < all.len() && !(#[trigger] all[i]).separator && !(
            #[trigger] all[j]).separator implies all[i].label != all[j].label by {
            assert(all[i] == before[i]);
            if j < before.len() {
                assert(all[j] == before[j]);
            }
        }
    }
}

// ---------------------------------------------------------------------------
// The items that a menu is asked for
// ---------------------------------------------------------------------------

/// Items that lie in one folder.
#[derive(Debug, PartialEq, Eq)]
pub struct Siblings {
    pub dir: String,
    pub names: Vec<String>,
}

/// Every one of `paths` has a name.
pub open spec fn all_named(paths: Seq<Seq<char>>) -> bool {
    forall|i: int| 0 <= i < paths.len() ==> path::file_name_of(#[trigger] paths[i]) is Some
}

/// The folder of the first of `paths` with the names of all of them: the shape
/// in which the shell is asked for one menu over several items. Nothing where
/// there is no path, the first has no parent, or one has no name.
pub fn bind_children(paths: &Vec<String>) -> (r: Option<Siblings>)
    ensures
        match r {
            Some(s) => {
                &&& paths@.len() > 0
                &&& path::parent_of(paths@[0]@) == Some(s.dir@)
                &&& s.names@.len() == paths@.len()
                &&& forall|i: int|
                    0 <= i < paths@.len() ==> path::file_name_of((#[trigger] paths@[i])@) == Some(
                        s.names@[i]@,
                    )
            },
            None => paths@.len() == 0 || path::parent_of(paths@[0]@) is None || !all_named(
                text::texts(paths@),
            ),
        },
{
    if paths.len() == 0 {
        return None;
    }
    let dir = match parent(paths[0].as_str()) {
        Some(d) => d,
        None => {
            return None;
        },
    };
    let mut names: Vec<String> = Vec::new();
    let mut i: usize = 0;
    while i < paths.len()
        invariant
            i <= paths.len(),
            names@.len() == i,
            forall|j: int|
                0 <= j < i ==> path::file_name_of((#[trigger] paths@[j])@) == Some(names@[j]@),
        decreases paths.len() - i,
    {
        match file_name(paths[i].as_str()) {
            Some(n) => {
                names.push(n);
            },
            None => {
                assert(path::file_name_of(text::texts(paths@)[i as int]) is None);
                return None;
            },
        }
        i = i + 1;
    }
    Some(Siblings { dir, names })
}

// ---------------------------------------------------------------------------
// Invoking an item
// ---------------------------------------------------------------------------

/// The least number that the shell gives to an item.
pub const ID_FIRST: u32 = 0x8000;

/// The greatest number that the shell gives to an item.
pub const ID_LAST: u32 = 0xBFFF;

/// How the shell is told which item to carry out.
#[derive(Debug, PartialEq, Eq)]
pub enum Invocation {
    /// By name: bytes that a zero ends.
    Verb(Vec<u8>),
    /// By its place among the items of the shell.
    Offset(u32),
}

/// The low bytes of `units` that are not zero.
pub open spec fn low_bytes(units: Seq<u16>) -> Seq<u8>
    decreases units.len(),
{
    if units.len() == 0 {
        Seq::empty()
    } else {
        let before = low_bytes(units.drop_last());
        let b = (units.last() % 256) as u8;
        if b == 0 {
            before
        } else {
            before.push(b)
        }
    }
}

/// Chooses how to carry out the item `id`: by the name `verb` that the shell
/// gave for it, or by its place where the shell gave none.
pub fn invoke(id: u32, verb: Option<Vec<u16>>) -> (r: Invocation)
    requires
        id >= ID_FIRST,
    ensures
        match verb {
            Some(units) => r matches Invocation::Verb(bytes) && bytes@ == low_bytes(units@).push(
                0,
            ),
            None => r == Invocation::Offset((id - ID_FIRST) as u32),
        },
{
    match verb {
        Some(units) => {
            let mut bytes: Vec<u8> = Vec::new();
            let mut i: usize = 0;
            assert(units@.subrange(0, 0) =~= Seq::<u16>::empty());
            while i < units.len()
                invariant
                    i <= units.len(),
                    bytes@ == low_bytes(units@.subrange(0, i as int)),
                decreases units.len() - i,
            {
                proof {
                    let upto = units@.subrange(0, i + 1);
                    assert(upto.drop_last() =~= units@.subrange(0, i as int));
                    assert(upto.last() == units@[i as int]);
                }
                let b: u8 = (units[i] % 256) as u8;
                if b != 0 {
                    bytes.push(b);
                }
                i = i + 1;
            }
            assert(units@.subrange(0, units@.len() as int) =~= units@);
            bytes.push(0);
            Invocation::Verb(bytes)
        },
        None => Invocation::Offset(id - ID_FIRST),
    }
}

/// A verb that is handed to the shell ends in a zero and has no other.
pub proof fn law_verbs_end_in_one_zero(units: Seq<u16>)
    ensures
        !low_bytes(units).contains(0),
    decreases units.len(),
{
    if units.len() > 0 {
        law_verbs_end_in_one_zero(units.drop_last());
        let before = low_bytes(units.drop_last());
        let all = low_bytes(units);
        if all.contains(0) {
            let k = choose|k: int| 0 <= k < all.len() && all[k] == 0;
            if k < before.len() {
                assert(before[k] == 0);
            }
        }
    }
}

/// What is offered under a label is what the menu first has under it.
proof fn lemma_offered(raw: Seq<RawMenuItem>, i: int)
    requires
        0 <= i < raw.len(),
        !raw[i].owner_draw,
    ensures
        raw[i].separator ==> exists|k: int|
            0 <= k < menu_of(raw).len() && (#[trigger] menu_of(raw)[k]).separator && menu_of(
                raw,
            )[k].id == raw[i].id,
        !raw[i].separator ==> has_label(menu_of(raw), text::wide_text_of(raw[i].label@)),
    decreases raw.len(),
{
    let front = raw.drop_last();
    let before = menu_of(front);
    let menu = menu_of(raw);
    assert(forall|k: int| 0 <= k < before.len() ==> menu[k] == before[k]);
    assert(menu.len() >= before.len());
    if i < raw.len() - 1 {
        lemma_offered(front, i);
        assert(front[i] == raw[i]);
        if raw[i].separator {
            let k = choose|k: int|
                0 <= k < before.len() && (#[trigger] before[k]).separator && before[k].id
                    == raw[i].id;
            assert(menu[k] == before[k]);
        } else {
            let label = text::wide_text_of(raw[i].label@);
            let k = choose|k: int|
                0 <= k < before.len() && !(#[trigger] before[k]).separator && before[k].label
                    == label;
            assert(menu[k] == before[k]);
        }
    } else {
        let label = text::wide_text_of(raw[i].label@);
        if !raw[i].separator && has_label(before, label) {
            let k = choose|k: int|
                0 <= k < before.len() && !(#[trigger] before[k]).separator && before[k].label
                    == label;
            assert(menu[k] == before[k]);
        } else {
            assert(menu.len() == before.len() + 1);
            assert(menu[before.len() as int] == menu.last());
        }
    }
}

proof fn lemma_offers_come_from_the_menu(raw: Seq<RawMenuItem>, k: int)
    requires
        0 <= k < menu_of(raw).len(),
    ensures
        exists|i: int|
            {
                let m = menu_of(raw)[k];
                &&& 0 <= i < raw.len() && !(#[trigger] raw[i]).owner_draw
                &&& m.id == raw[i].id && m.separator == raw[i].separator
                &&& !m.separator ==> m.label == text::wide_text_of(raw[i].label@) && m.disabled
                    == raw[i].disabled && m.sub_items == menu_of(raw[i].sub_items@)
            },
    decreases raw.len(),
{
    if raw.len() > 0 {
        let front = raw.drop_last();
        let before = menu_of(front);
        if k < before.len() {
            lemma_offers_come_from_the_menu(front, k);
            assert(menu_of(raw)[k] == before[k]);
            let i = choose|i: int|
                {
                    let m = before[k];
                    &&& 0 <= i < front.len() && !(#[trigger] front[i]).owner_draw
                    &&& m.id == front[i].id && m.separator == front[i].separator
                    &&& !m.separator ==> m.label == text::wide_text_of(front[i].label@)
                        && m.disabled == front[i].disabled && m.sub_items == menu_of(
                        front[i].sub_items@,
                    )
                };
            assert(raw[i] == front[i]);
        } else {
            assert(raw[raw.len() - 1] == raw.last());
        }
    }
}

/// Every command of the shell's menu is offered under its label, unless the
/// shell draws it itself, and so is every separator. What is offered is one of
/// the menu's own commands, with its identity and its submenu, and can be chosen
/// where that one can.
pub proof fn law_every_command_is_offered(
    raw: &Vec<RawMenuItem>,
    r: Vec<ShellMenuItem>,
    i: int,
    k: int,
)
    requires
        call_ensures(enumerate_menu, (raw,), r),
        0 <= i < raw@.len(),
        !raw@[i].owner_draw,
        0 <= k < r@.len(),
    ensures
        exists|j: int|
            0 <= j < r@.len() && (#[trigger] r@[j]).separator == raw@[i].separator && (
            raw@[i].separator ==> r@[j].id == raw@[i].id) && (!raw@[i].separator ==> r@[j].label@
                == text::wide_text_of(raw@[i].label@)),
        exists|j: int|
            {
                &&& 0 <= j < raw@.len() && !(#[trigger] raw@[j]).owner_draw
                &&& r@[k].id == raw@[j].id && r@[k].separator == raw@[j].separator
                &&& !r@[k].separator ==> r@[k].label@ == text::wide_text_of(raw@[j].label@)
                    && r@[k].disabled == raw@[j].disabled && menu_model(r@[k].sub_items@)
                    == menu_of(raw@[j].sub_items@)
            },
{
    lemma_menu_model(r@);
    let menu = menu_of(raw@);
    lemma_offered(raw@, i);
    lemma_offers_come_from_the_menu(raw@, k);
    assert(menu[k] == item_model(r@[k]));
    if raw@[i].separator {
        let j = choose|j: int|
            0 <= j < menu.len() && (#[trigger] menu[j]).separator && menu[j].id == raw@[i].id;
        assert(menu[j] == item_model(r@[j]));
    } else {
        let label = text::wide_text_of(raw@[i].label@);
        let j = choose|j: int|
            0 <= j < menu.len() && !(#[trigger] menu[j]).separator && menu[j].label == label;
        assert(menu[j] == item_model(r@[j]));
    }
}

proof fn lemma_low_bytes(
    units: Seq<u16>,
    f: spec_fn(u16) -> u8,
    p: spec_fn(u8) -> bool,
)
    requires
        forall|u: u16| #[trigger] f(u) == (u % 256) as u8,
        forall|b: u8| #[trigger] p(b) == (b != 0),
    ensures
        low_bytes(units) == units.map_values(f).filter(p),
    decreases units.len(),
{
    reveal(Seq::filter);
    let all = units.map_values(f);
    if units.len() > 0 {
        lemma_low_bytes(units.drop_last(), f, p);
        assert(all.drop_last() =~= units.drop_last().map_values(f));
        assert(all.last() == (units.last() % 256) as u8);
    } else {
        assert(all =~= Seq::empty());
    }
}

/// A command is run by its verb where it has one, letter by letter, and else by
/// its place behind the first identity.
pub proof fn law_commands_are_run_by_their_verb(
    id: u32,
    verb: Option<Vec<u16>>,
    r: Invocation,
)
    requires
        call_ensures(invoke, (id, verb), r),
        id >= 0x8000,
    ensures
        verb matches Some(units) ==> (r matches Invocation::Verb(bytes) && bytes@
            == units@.map_values(|u: u16| (u % 256) as u8).filter(|b: u8| b != 0).push(0)),
        verb is None ==> r == Invocation::Offset((id - 0x8000) as u32),
{
    match verb {
        Some(units) => lemma_low_bytes(
            units@,
            |u: u16| (u % 256) as u8,
            |b: u8| b != 0,
        ),
        None => {},
    }
}

} // verus!
