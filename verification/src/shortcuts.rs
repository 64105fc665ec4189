//! The shortcut map: which action a key combination triggers.

use crate::actions::{ActionRef, ComboView, KeyCombo, KeyInput};
use crate::sort::merge_sort;
use crate::text::{chars_of, join, str_lt};
use crate::{actions, sort, text};
use vstd::prelude::*;

verus! {

/// A combination and the action it triggers.
#[derive(Debug, PartialEq)]
pub struct Shortcut {
    pub combo: KeyCombo,
    pub action: ActionRef,
}

/// Which action each combination triggers.
#[derive(Debug, PartialEq)]
pub struct ShortcutMap {
    entries: Vec<Shortcut>,
}

/// No combination stands twice.
pub open spec fn unique_combos(s: Seq<Shortcut>) -> bool {
    forall|i: int, j: int|
        0 <= i < s.len() && 0 <= j < s.len() && i != j ==> (#[trigger] s[i]).combo@ != (
        #[trigger] s[j]).combo@
}

/// The actions by combination.
pub open spec fn shortcut_map(s: Seq<Shortcut>) -> Map<ComboView, ActionRef>
    decreases s.len(),
{
    if s.len() == 0 {
        Map::empty()
    } else {
        shortcut_map(s.drop_last()).insert(s.last().combo@, s.last().action)
    }
}

proof fn lemma_shortcut_map(s: Seq<Shortcut>)
    requires
        unique_combos(s),
    ensures
        forall|i: int|
            0 <= i < s.len() ==> shortcut_map(s).contains_key((#[trigger] s[i]).combo@)
                && shortcut_map(s)[s[i].combo@] == s[i].action,
        forall|k: ComboView| #[trigger]
            shortcut_map(s).contains_key(k) ==> exists|i: int|
                0 <= i < s.len() && (#[trigger] s[i]).combo@ == k,
    decreases s.len(),
{
    if s.len() > 0 {
        let front = s.drop_last();
        assert forall|i: int, j: int|
            0 <= i < front.len() && 0 <= j < front.len() && i != j implies (
        #[trigger] front[i]).combo@ != (#[trigger] front[j]).combo@ by {
            assert(front[i] == s[i] && front[j] == s[j]);
        }
        lemma_shortcut_map(front);
        assert forall|i: int| 0 <= i < s.len() implies shortcut_map(s).contains_key(
            (#[trigger] s[i]).combo@,
        ) && shortcut_map(s)[s[i].combo@] == s[i].action by {
            if i < front.len() {
                assert(front[i] == s[i]);
                assert(s[i].combo@ != s[s.len() - 1].combo@);
            }
        }
        assert forall|k: ComboView| #[trigger]
            shortcut_map(s).contains_key(k) implies exists|i: int|
            0 <= i < s.len() && (#[trigger] s[i]).combo@ == k by {
            if k == s.last().combo@ {
                assert(s[s.len() - 1].combo@ == k);
            } else {
                assert(shortcut_map(front).contains_key(k));
                let i = choose|i: int| 0 <= i < front.len() && (#[trigger] front[i]).combo@ == k;
                assert(s[i] == front[i]);
            }
        }
    }
}

/// The combination is down in this frame.
pub open spec fn is_down(c: ComboView, i: KeyInput) -> bool {
    text::texts(i.pressed@).contains(c.3) && i.ctrl == c.0 && i.shift == c.1 && i.alt == c.2
}

/// The combinations that trigger `action`, in the order of the map.
pub open spec fn combos_of(s: Seq<Shortcut>, action: ActionRef) -> Seq<KeyCombo>
    decreases s.len(),
{
    if s.len() == 0 {
        Seq::<KeyCombo>::empty()
    } else if s.last().action == action {
        combos_of(s.drop_last(), action).push(s.last().combo)
    } else {
        combos_of(s.drop_last(), action)
    }
}

/// The order of combinations by their text.
pub open spec fn combo_order() -> spec_fn(KeyCombo, KeyCombo) -> bool {
    |a: KeyCombo, b: KeyCombo|
        text::text_lt(actions::combo_text(a@), actions::combo_text(b@))
}

/// The texts of combinations.
pub open spec fn combo_texts(s: Seq<KeyCombo>) -> Seq<Seq<char>> {
    Seq::new(s.len(), |i: int| actions::combo_text(s[i]@))
}

proof fn lemma_combo_order()
    ensures
        sort::strict_weak_order(combo_order()),
{
    let lt = combo_order();
    assert forall|a: KeyCombo| !#[trigger] lt(a, a) by {
        text::lemma_text_lt_irreflexive(actions::combo_text(a@));
    }
    assert forall|a: KeyCombo, b: KeyCombo, c: KeyCombo| #[trigger]
        lt(a, b) && #[trigger] lt(b, c) implies lt(a, c) by {
        text::lemma_text_lt_transitive(
            actions::combo_text(a@),
            actions::combo_text(b@),
            actions::combo_text(c@),
        );
    }
    assert forall|a: KeyCombo, b: KeyCombo, c: KeyCombo|
        !#[trigger] lt(a, b) && !#[trigger] lt(b, c) implies !lt(a, c) by {
        let (x, y, z) = (
            actions::combo_text(a@),
            actions::combo_text(b@),
            actions::combo_text(c@),
        );
        if text::text_lt(x, z) {
            text::lemma_text_lt_total(x, y);
            text::lemma_text_lt_total(y, z);
            if x != y {
                text::lemma_text_lt_transitive(y, x, z);
            }
        }
    }
}

impl View for ShortcutMap {
    type V = Map<ComboView, ActionRef>;

    closed spec fn view(&self) -> Map<ComboView, ActionRef> {
        shortcut_map(self.entries@)
    }
}

impl ShortcutMap {
    pub closed spec fn wf(self) -> bool {
        unique_combos(self.entries@)
    }

    /// The shortcuts in the order of the map.
    pub closed spec fn entries(self) -> Seq<Shortcut> {
        self.entries@
    }

    /// A map without shortcuts.
    pub fn new() -> (r: Self)
        ensures
            r.wf(),
            r@ == Map::<ComboView, ActionRef>::empty(),
    {
        ShortcutMap { entries: Vec::new() }
    }

    fn find(&self, combo: &KeyCombo) -> (r: Option<usize>)
        requires
            self.wf(),
        ensures
            match r {
                Some(i) => i < self.entries@.len() && self.entries@[i as int].combo@ == combo@
                    && self@.contains_key(combo@) && self@[combo@]
                    == self.entries@[i as int].action,
                None => !self@.contains_key(combo@) && forall|j: int|
                    0 <= j < self.entries@.len() ==> (#[trigger] self.entries@[j]).combo@ != combo@,
            },
    {
        proof {
            lemma_shortcut_map(self.entries@);
        }
        let mut i: usize = 0;
        while i < self.entries.len()
            invariant
                i <= self.entries@.len(),
                forall|k: int|
                    0 <= k < self.entries@.len() ==> self@.contains_key(
                        (#[trigger] self.entries@[k]).combo@,
                    ) && self@[self.entries@[k].combo@] == self.entries@[k].action,
                forall|j: int| 0 <= j < i ==> (#[trigger] self.entries@[j]).combo@ != combo@,
            decreases self.entries@.len() - i,
        {
            if self.entries[i].combo.same(combo) {
                return Some(i);
            }
            i = i + 1;
        }
        None
    }

    /// The action that `combo` triggers.
    pub fn get(&self, combo: &KeyCombo) -> (r: Option<ActionRef>)
        requires
            self.wf(),
        ensures
            match r {
                Some(a) => self@.contains_key(combo@) && a == self@[combo@],
                None => !self@.contains_key(combo@),
            },
    {
        match self.find(combo) {
            Some(i) => Some(self.entries[i].action),
            None => None,
        }
    }

    /// Makes `combo` trigger `action`.
    pub fn insert(&mut self, combo: KeyCombo, action: ActionRef)
        requires
            old(self).wf(),
        ensures
            final(self).wf(),
            final(self)@ == old(self)@.insert(combo@, action),
    {
        let ghost before = self.entries@;
        proof {
            lemma_shortcut_map(before);
        }
        match self.find(&combo) {
            Some(i) => {
                self.entries[i].action = action;
                proof {
                    let after = self.entries@;
                    assert forall|a: int, b: int|
                        0 <= a < after.len() && 0 <= b < after.len() && a != b implies (
                    #[trigger] after[a]).combo@ != (#[trigger] after[b]).combo@ by {
                        assert(after[a].combo == before[a].combo);
                        assert(after[b].combo == before[b].combo);
                    }
                    lemma_shortcut_map(after);
                    assert forall|k: ComboView|
                        #![auto]
                        shortcut_map(after).contains_key(k) == shortcut_map(before).insert(
                            combo@,
                            action,
                        ).contains_key(k) by {
                        if shortcut_map(after).contains_key(k) {
                            let j = choose|j: int|
                                0 <= j < after.len() && (#[trigger] after[j]).combo@ == k;
                            assert(before[j].combo@ == k);
                        }
                        if shortcut_map(before).contains_key(k) {
                            let j = choose|j: int|
                                0 <= j < before.len() && (#[trigger] before[j]).combo@ == k;
                            assert(after[j].combo@ == k);
                        }
                        assert(after[i as int].combo@ == combo@);
                    }
                    assert forall|k: ComboView|
                        shortcut_map(after).contains_key(k) implies #[trigger] shortcut_map(
                        after,
                    )[k] == shortcut_map(before).insert(combo@, action)[k] by {
                        let j = choose|j: int|
                            0 <= j < after.len() && (#[trigger] after[j]).combo@ == k;
                        assert(before[j].combo@ == k);
                        if j != i {
                            assert(after[j] == before[j]);
                            assert(before[j].combo@ != before[i as int].combo@);
                        }
                    }
                    assert(shortcut_map(after) =~= shortcut_map(before).insert(combo@, action));
                }
            },
            None => {
                self.entries.push(Shortcut { combo, action });
                proof {
                    let after = self.entries@;
                    assert(after.drop_last() =~= before);
                    assert forall|a: int, b: int|
                        0 <= a < after.len() && 0 <= b < after.len() && a != b implies (
                    #[trigger] after[a]).combo@ != (#[trigger] after[b]).combo@ by {
                        if a < before.len() {
                            assert(after[a] == before[a]);
                        }
                        if b < before.len() {
                            assert(after[b] == before[b]);
                        }
                    }
                }
            },
        }
    }

    /// Makes `combo` trigger nothing.
    pub fn remove(&mut self, combo: &KeyCombo)
        requires
            old(self).wf(),
        ensures
            final(self).wf(),
            final(self)@ == old(self)@.remove(combo@),
    {
        let ghost before = self.entries@;
        proof {
            lemma_shortcut_map(before);
        }
        match self.find(combo) {
            None => {
                assert(shortcut_map(before).remove(combo@) =~= shortcut_map(before));
            },
            Some(i) => {
                self.entries.remove(i);
                proof {
                    let after = self.entries@;
                    assert(after =~= before.remove(i as int));
                    assert forall|a: int, b: int|
                        0 <= a < after.len() && 0 <= b < after.len() && a != b implies (
                    #[trigger] after[a]).combo@ != (#[trigger] after[b]).combo@ by {
                        let a0 = if a < i {
                            a
                        } else {
                            a + 1
                        };
                        let b0 = if b < i {
                            b
                        } else {
                            b + 1
                        };
                        assert(after[a] == before[a0] && after[b] == before[b0]);
                    }
                    lemma_shortcut_map(after);
                    assert forall|k: ComboView|
                        #![auto]
                        shortcut_map(after).contains_key(k) == shortcut_map(before).remove(
                            combo@,
                        ).contains_key(k) by {
                        if shortcut_map(after).contains_key(k) {
                            let j = choose|j: int|
                                0 <= j < after.len() && (#[trigger] after[j]).combo@ == k;
                            let j0 = if j < i {
                                j
                            } else {
                                j + 1
                            };
                            assert(after[j] == before[j0]);
                            assert(before[j0].combo@ != before[i as int].combo@);
                        }
                        if shortcut_map(before).contains_key(k) && k != combo@ {
                            let j = choose|j: int|
                                0 <= j < before.len() && (#[trigger] before[j]).combo@ == k;
                            let j1 = if j < i {
                                j
                            } else {
                                j - 1
                            };
                            assert(after[j1] == before[j]);
                        }
                    }
                    assert forall|k: ComboView|
                        shortcut_map(after).contains_key(k) implies #[trigger] shortcut_map(
                        after,
                    )[k] == shortcut_map(before).remove(combo@)[k] by {
                        let j = choose|j: int|
                            0 <= j < after.len() && (#[trigger] after[j]).combo@ == k;
                        let j0 = if j < i {
                            j
                        } else {
                            j + 1
                        };
                        assert(after[j] == before[j0]);
                    }
                    assert(shortcut_map(after) =~= shortcut_map(before).remove(combo@));
                }
            },
        }
    }

    /// The action of a combination that is down in this frame, where there is
    /// one.
    pub fn triggered(&self, i: &KeyInput) -> (r: Option<ActionRef>)
        requires
            self.wf(),
        ensures
            match r {
                Some(a) => exists|c: ComboView|
                    self@.contains_key(c) && is_down(c, *i) && #[trigger] self@[c] == a,
                None => forall|c: ComboView| #[trigger]
                    self@.contains_key(c) ==> !is_down(c, *i),
            },
    {
        proof {
            lemma_shortcut_map(self.entries@);
        }
        let mut k: usize = 0;
        while k < self.entries.len()
            invariant
                k <= self.entries@.len(),
                forall|x: int|
                    0 <= x < self.entries@.len() ==> self@.contains_key(
                        (#[trigger] self.entries@[x]).combo@,
                    ) && self@[self.entries@[x].combo@] == self.entries@[x].action,
                forall|x: int| 0 <= x < k ==> !is_down((#[trigger] self.entries@[x]).combo@, *i),
            decreases self.entries@.len() - k,
        {
            if self.entries[k].combo.matches_input(i) {
                assert(is_down(self.entries@[k as int].combo@, *i));
                return Some(self.entries[k].action);
            }
            k = k + 1;
        }
        proof {
            assert forall|c: ComboView| #[trigger] self@.contains_key(c) implies !is_down(c, *i) by {
                let x = choose|x: int|
                    0 <= x < self.entries@.len() && (#[trigger] self.entries@[x]).combo@ == c;
                assert(!is_down(self.entries@[x].combo@, *i));
            }
        }
        None
    }

    /// The combinations that trigger `action`, in the order of their texts.
    pub fn combos_for(&self, action: ActionRef) -> (r: Vec<KeyCombo>)
        requires
            self.wf(),
        ensures
            r@ == sort::sorted(combos_of(self.entries(), action), combo_order()),
    {
        let mut out: Vec<KeyCombo> = Vec::new();
        let mut i: usize = 0;
        while i < self.entries.len()
            invariant
                i <= self.entries@.len(),
                out@ == combos_of(self.entries@.subrange(0, i as int), action),
            decreases self.entries@.len() - i,
        {
            assert(self.entries@.subrange(0, i + 1).drop_last() =~= self.entries@.subrange(
                0,
                i as int,
            ));
            if self.entries[i].action == action {
                out.push(self.entries[i].combo.clone());
            }
            i = i + 1;
        }
        assert(self.entries@.subrange(0, i as int) =~= self.entries@);
        proof {
            lemma_combo_order();
        }
        let less = |a: &KeyCombo, b: &KeyCombo| -> (r: bool)
            ensures
                r == text::text_lt(actions::combo_text(a@), actions::combo_text(b@)),
            {
                let x: Vec<char> = chars_of(a.to_text().as_str());
                let y: Vec<char> = chars_of(b.to_text().as_str());
                str_lt(&x, &y)
            };
        merge_sort(out, &less, Ghost(combo_order()))
    }
}

/// A combination triggers an action exactly where it is among the
/// combinations of that action.
pub proof fn law_combos_for_is_complete(s: Seq<Shortcut>, action: ActionRef, c: ComboView)
    requires
        unique_combos(s),
    ensures
        (shortcut_map(s).contains_key(c) && shortcut_map(s)[c] == action) <==> exists|i: int|
            0 <= i < combos_of(s, action).len() && (#[trigger] combos_of(s, action)[i])@ == c,
    decreases s.len(),
{
    if s.len() > 0 {
        let front = s.drop_last();
        assert forall|i: int, j: int|
            0 <= i < front.len() && 0 <= j < front.len() && i != j implies (
        #[trigger] front[i]).combo@ != (#[trigger] front[j]).combo@ by {
            assert(front[i] == s[i] && front[j] == s[j]);
        }
        law_combos_for_is_complete(front, action, c);
        lemma_shortcut_map(front);
        let all = combos_of(s, action);
        let part = combos_of(front, action);
        if shortcut_map(s).contains_key(c) && shortcut_map(s)[c] == action {
            if s.last().combo@ == c {
                assert(all[all.len() - 1]@ == c);
            } else {
                let i = choose|i: int| 0 <= i < part.len() && (#[trigger] part[i])@ == c;
                assert(all[i] == part[i]);
            }
        }
        if exists|i: int| 0 <= i < all.len() && (#[trigger] all[i])@ == c {
            let i = choose|i: int| 0 <= i < all.len() && (#[trigger] all[i])@ == c;
            if i < part.len() {
                assert(part[i] == all[i]);
                assert(shortcut_map(front).contains_key(c));
                let j = choose|j: int| 0 <= j < front.len() && (#[trigger] front[j]).combo@ == c;
                assert(s[j] == front[j]);
                assert(s[j].combo@ != s[s.len() - 1].combo@);
            }
        }
    }
}

/// What the settings show for an action: its combinations, or that it has
/// none.
pub open spec fn combos_label(combos: Seq<KeyCombo>) -> Seq<char> {
    if combos.len() == 0 {
        "(none)"@
    } else {
        text::joined(combo_texts(combos), " / "@)
    }
}

/// What the settings show for the combinations of an action.
pub fn combo_label(combos: &Vec<KeyCombo>) -> (r: String)
    ensures
        r@ == combos_label(combos@),
{
    if combos.len() == 0 {
        return "(none)".to_owned();
    }
    let mut texts: Vec<String> = Vec::new();
    let mut i: usize = 0;
    while i < combos.len()
        invariant
            i <= combos@.len(),
            texts@.len() == i,
            forall|j: int|
                0 <= j < i ==> (#[trigger] texts@[j])@ == actions::combo_text(combos@[j]@),
        decreases combos@.len() - i,
    {
        texts.push(combos[i].to_text());
        i = i + 1;
    }
    assert(text::texts(texts@) =~= combo_texts(combos@));
    join(&texts, " / ")
}

/// An action is triggered just by keys that it is bound to: the key is pressed,
/// and the modifiers that are held are those of the combination, no more and no
/// fewer.
pub proof fn law_shortcuts_need_their_modifiers(
    m: &ShortcutMap,
    i: &KeyInput,
    r: Option<ActionRef>,
)
    requires
        call_ensures(ShortcutMap::triggered, (m, i), r),
    ensures
        r matches Some(a) ==> exists|c: ComboView|
            {
                &&& m@.contains_key(c) && #[trigger] m@[c] == a
                &&& text::texts(i.pressed@).contains(c.3)
                &&& i.ctrl == c.0 && i.shift == c.1 && i.alt == c.2
            },
        r is None ==> forall|c: ComboView| #[trigger]
            m@.contains_key(c) && i.ctrl == c.0 && i.shift == c.1 && i.alt == c.2
                ==> !text::texts(i.pressed@).contains(c.3),
{
}

/// The combinations that are told for an action are all those that trigger it,
/// in the order of their texts.
pub proof fn law_every_combination_is_told(
    m: &ShortcutMap,
    action: ActionRef,
    r: Vec<KeyCombo>,
    c: ComboView,
)
    requires
        m.wf(),
        call_ensures(ShortcutMap::combos_for, (m, action), r),
    ensures
        m@.contains_key(c) && m@[c] == action <==> exists|i: int|
            0 <= i < r@.len() && (#[trigger] r@[i])@ == c,
        forall|i: int, j: int|
            0 <= i < j < r@.len() ==> !text::text_lt(
                actions::combo_text((#[trigger] r@[j])@),
                actions::combo_text((#[trigger] r@[i])@),
            ),
{
    broadcast use vstd::seq_lib::group_to_multiset_ensures;

    let all = combos_of(m.entries@, action);
    law_combos_for_is_complete(m.entries@, action, c);
    sort::law_sort_permutes(all, combo_order());
    lemma_combo_order();
    sort::law_sort_orders(all, combo_order());
    if exists|i: int| 0 <= i < all.len() && (#[trigger] all[i])@ == c {
        let i = choose|i: int| 0 <= i < all.len() && (#[trigger] all[i])@ == c;
        assert(all.contains(all[i]));
        assert(r@.to_multiset().count(all[i]) > 0);
        assert(r@.contains(all[i]));
    }
    if exists|i: int| 0 <= i < r@.len() && (#[trigger] r@[i])@ == c {
        let i = choose|i: int| 0 <= i < r@.len() && (#[trigger] r@[i])@ == c;
        assert(r@.contains(r@[i]));
        assert(all.to_multiset().count(r@[i]) > 0);
        assert(all.contains(r@[i]));
    }
    assert forall|i: int, j: int| 0 <= i < j < r@.len() implies !text::text_lt(
        actions::combo_text((#[trigger] r@[j])@),
        actions::combo_text((#[trigger] r@[i])@),
    ) by {
        assert(!combo_order()(r@[j], r@[i]));
    }
}

} // verus!
