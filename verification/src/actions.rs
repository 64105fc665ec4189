//! Actions, the keys they are bound to, the toolbar, custom actions and the
//! programs that file extensions are pinned to.

use crate::db::{CustomRow, Database, DbError};
use crate::shortcuts::ShortcutMap;
use crate::table::{Pair, Row};
use crate::text::{
    i64_to_string, join, parse_i64, split_on, str_eq, strip_prefix, to_lowercase, trim_start_char,
};
use crate::{sort, table, text};
use vstd::prelude::*;

verus! {

// ---------------------------------------------------------------------------
// Key combinations
// ---------------------------------------------------------------------------

/// The name under which `egui` knows the key that `egui::Key::from_name`
/// finds for a text.
pub uninterp spec fn canonical_key(name: Seq<char>) -> Option<Seq<char>>;

/// `egui::Key::from_name`, with the key that it finds given by its
/// `egui::Key::name`. The name of a key finds that key again, holds no `+`,
/// and is none of the words `Ctrl`, `Shift` and `Alt`.
#[verifier::external_body]
fn canonical_key_name(name: &str) -> (r: Option<String>)
    ensures
        match r {
            Some(n) => canonical_key(name@) == Some(n@),
            None => canonical_key(name@) is None,
        },
        r matches Some(n) ==> canonical_key(n@) == Some(n@) && plain_key(n@),
{
    match egui::Key::from_name(name) {
        Some(key) => Some(key.name().to_string()),
        None => None,
    }
}

/// `name` is the name of a key.
pub open spec fn is_key(name: Seq<char>) -> bool {
    canonical_key(name) == Some(name)
}

/// `name` can stand behind modifiers without being taken for one.
pub open spec fn plain_key(name: Seq<char>) -> bool {
    &&& !name.contains('+')
    &&& name != "Ctrl"@
    &&& name != "Shift"@
    &&& name != "Alt"@
}

/// What a key combination is made of: Ctrl, Shift, Alt and the key.
pub type ComboView = (bool, bool, bool, Seq<char>);

/// A key combination: modifiers and the name of one key. Round-trips through
/// a storable string like `"Ctrl+Shift+X"` via `to_text` and `parse`.
#[derive(Debug, PartialEq, Eq, Hash)]
pub struct KeyCombo {
    pub ctrl: bool,
    pub shift: bool,
    pub alt: bool,
    pub key: String,
}

impl View for KeyCombo {
    type V = (bool, bool, bool, Seq<char>);

    open spec fn view(&self) -> (bool, bool, bool, Seq<char>) {
        (self.ctrl, self.shift, self.alt, self.key@)
    }
}

impl Clone for KeyCombo {
    fn clone(&self) -> (r: Self)
        ensures
            r == *self,
    {
        KeyCombo { ctrl: self.ctrl, shift: self.shift, alt: self.alt, key: self.key.clone() }
    }
}

/// The words of a combination: its modifiers in the order Ctrl, Shift, Alt,
/// then the key.
pub open spec fn combo_words(c: ComboView) -> Seq<Seq<char>> {
    (if c.0 {
        seq!["Ctrl"@]
    } else {
        Seq::<Seq<char>>::empty()
    }) + (if c.1 {
        seq!["Shift"@]
    } else {
        Seq::<Seq<char>>::empty()
    }) + (if c.2 {
        seq!["Alt"@]
    } else {
        Seq::<Seq<char>>::empty()
    }) + seq![c.3]
}

/// A combination as text.
pub open spec fn combo_text(c: ComboView) -> Seq<char> {
    text::joined(combo_words(c), seq!['+'])
}

/// What the words of a combination say: the modifiers among them, and the
/// last word that is none, where it names a key.
pub open spec fn read_words(words: Seq<Seq<char>>) -> (bool, bool, bool, Option<Seq<char>>)
    decreases words.len(),
{
    if words.len() == 0 {
        (false, false, false, None)
    } else {
        let (ctrl, shift, alt, key) = read_words(words.drop_last());
        let word = words.last();
        if word == "Ctrl"@ {
            (true, shift, alt, key)
        } else if word == "Shift"@ {
            (ctrl, true, alt, key)
        } else if word == "Alt"@ {
            (ctrl, shift, true, key)
        } else if is_key(word) {
            (ctrl, shift, alt, Some(word))
        } else {
            (ctrl, shift, alt, None)
        }
    }
}

/// The combination that a text stands for.
pub open spec fn parse_combo(raw: Seq<char>) -> Option<ComboView> {
    let (ctrl, shift, alt, key) = read_words(text::split(raw, '+'));
    match key {
        Some(k) => Some((ctrl, shift, alt, k)),
        None => None,
    }
}

/// The keys that went down in one frame and the modifiers held with them.
#[derive(Debug, PartialEq)]
pub struct KeyInput {
    pub pressed: Vec<String>,
    pub ctrl: bool,
    pub shift: bool,
    pub alt: bool,
}

impl KeyCombo {
    /// The combination names a key, whose name cannot be taken for a modifier.
    pub open spec fn wf(self) -> bool {
        is_key(self.key@) && plain_key(self.key@)
    }

    /// A combination of modifiers and the key with that name.
    pub fn new(ctrl: bool, shift: bool, alt: bool, key: &str) -> (r: Self)
        ensures
            r@ == (ctrl, shift, alt, key@),
    {
        KeyCombo { ctrl, shift, alt, key: key.to_owned() }
    }

    /// Ctrl and a key.
    pub fn ctrl(key: &str) -> (r: Self)
        ensures
            r@ == (true, false, false, key@),
    {
        KeyCombo::new(true, false, false, key)
    }

    /// A key without modifiers.
    pub fn plain(key: &str) -> (r: Self)
        ensures
            r@ == (false, false, false, key@),
    {
        KeyCombo::new(false, false, false, key)
    }

    /// Whether two combinations are the same.
    pub fn same(&self, other: &KeyCombo) -> (r: bool)
        ensures
            r == (self@ == other@),
    {
        self.ctrl == other.ctrl && self.shift == other.shift && self.alt == other.alt && str_eq(
            self.key.as_str(),
            other.key.as_str(),
        )
    }

    /// Whether the combination names a key.
    pub fn is_valid(&self) -> (r: bool)
        ensures
            r == is_key(self.key@),
            r ==> self.wf(),
    {
        match canonical_key_name(self.key.as_str()) {
            Some(n) => str_eq(n.as_str(), self.key.as_str()),
            None => false,
        }
    }

    /// True if this combo was just pressed this frame, per the given input.
    pub fn matches_input(&self, i: &KeyInput) -> (r: bool)
        ensures
            r == (text::texts(i.pressed@).contains(self.key@) && i.ctrl == self.ctrl && i.shift
                == self.shift && i.alt == self.alt),
    {
        let down = match crate::text::position_of(&i.pressed, self.key.as_str()) {
            Some(k) => {
                assert(text::texts(i.pressed@)[k as int] == self.key@);
                true
            },
            None => {
                assert forall|j: int| 0 <= j < i.pressed@.len() implies text::texts(i.pressed@)[j]
                    != self.key@ by {
                    assert(text::texts(i.pressed@)[j] == i.pressed@[j]@);
                }
                false
            },
        };
        down && i.ctrl == self.ctrl && i.shift == self.shift && i.alt == self.alt
    }

    /// The combination as text, like `"Ctrl+Shift+X"`.
    pub fn to_text(&self) -> (r: String)
        ensures
            r@ == combo_text(self@),
    {
        let mut words: Vec<String> = Vec::new();
        if self.ctrl {
            words.push("Ctrl".to_owned());
        }
        if self.shift {
            words.push("Shift".to_owned());
        }
        if self.alt {
            words.push("Alt".to_owned());
        }
        words.push(self.key.clone());
        proof {
            reveal_strlit("+");
            assert("+"@ =~= seq!['+']);
            assert(text::texts(words@) =~= combo_words(self@));
        }
        join(&words, "+")
    }

    /// The combination that a text stands for.
    pub fn parse(raw: &str) -> (r: Option<Self>)
        ensures
            match r {
                Some(c) => parse_combo(raw@) == Some(c@) && c.wf(),
                None => parse_combo(raw@) is None,
            },
    {
        let words: Vec<String> = split_on(raw, '+');
        let mut ctrl = false;
        let mut shift = false;
        let mut alt = false;
        let mut key: Option<String> = None;
        let mut i: usize = 0;
        let ghost all = text::texts(words@);
        while i < words.len()
            invariant
                i <= words@.len(),
                all == text::texts(words@),
                read_words(all.subrange(0, i as int)) == (
                    ctrl,
                    shift,
                    alt,
                    match key {
                        Some(k) => Some(k@),
                        None => None,
                    },
                ),
                key matches Some(k) ==> is_key(k@) && plain_key(k@),
            decreases words@.len() - i,
        {
            assert(all.subrange(0, i + 1).drop_last() =~= all.subrange(0, i as int));
            assert(all.subrange(0, i + 1).last() == words@[i as int]@);
            let word = words[i].as_str();
            if str_eq(word, "Ctrl") {
                ctrl = true;
            } else if str_eq(word, "Shift") {
                shift = true;
            } else if str_eq(word, "Alt") {
                alt = true;
            } else {
                key = match canonical_key_name(word) {
                    Some(n) => if str_eq(n.as_str(), word) {
                        Some(n)
                    } else {
                        None
                    },
                    None => None,
                };
            }
            i = i + 1;
        }
        assert(all.subrange(0, i as int) =~= all);
        match key {
            Some(key) => Some(KeyCombo { ctrl, shift, alt, key }),
            None => None,
        }
    }
}

proof fn lemma_modifier_words()
    ensures
        !"Ctrl"@.contains('+'),
        !"Shift"@.contains('+'),
        !"Alt"@.contains('+'),
        "Ctrl"@ != "Shift"@,
        "Ctrl"@ != "Alt"@,
        "Shift"@ != "Alt"@,
{
    reveal_strlit("Ctrl");
    reveal_strlit("Shift");
    reveal_strlit("Alt");
    assert("Ctrl"@.len() == 4 && "Shift"@.len() == 5 && "Alt"@.len() == 3);
}

/// Reading a combination that was written as text gives it back.
pub proof fn law_combo_round_trips(c: KeyCombo)
    requires
        c.wf(),
    ensures
        parse_combo(combo_text(c@)) == Some(c@),
{
    let words = combo_words(c@);
    lemma_modifier_words();
    assert forall|i: int| 0 <= i < words.len() implies !(#[trigger] words[i]).contains('+') by {
        assert(words[i] == "Ctrl"@ || words[i] == "Shift"@ || words[i] == "Alt"@ || words[i]
            == c.key@);
    }
    text::law_split_undoes_join(words, '+');
    let mods = words.drop_last();
    assert(words.last() == c.key@);
    lemma_read_modifiers(c.ctrl, c.shift, c.alt);
    assert(mods =~= modifier_words(c.ctrl, c.shift, c.alt));
}

spec fn modifier_words(ctrl: bool, shift: bool, alt: bool) -> Seq<Seq<char>> {
    (if ctrl {
        seq!["Ctrl"@]
    } else {
        Seq::<Seq<char>>::empty()
    }) + (if shift {
        seq!["Shift"@]
    } else {
        Seq::<Seq<char>>::empty()
    }) + (if alt {
        seq!["Alt"@]
    } else {
        Seq::<Seq<char>>::empty()
    })
}

proof fn lemma_read_modifiers(ctrl: bool, shift: bool, alt: bool)
    ensures
        read_words(modifier_words(ctrl, shift, alt)) == (ctrl, shift, alt, None::<Seq<char>>),
{
    lemma_modifier_words();
    let none = Seq::<Seq<char>>::empty();
    assert(read_words(none) == (false, false, false, None::<Seq<char>>));
    let a = modifier_words(ctrl, false, false);
    if ctrl {
        assert(a.drop_last() =~= none);
        assert(a.last() == "Ctrl"@);
    } else {
        assert(a =~= none);
    }
    assert(read_words(a) == (ctrl, false, false, None::<Seq<char>>));
    let b = modifier_words(ctrl, shift, false);
    if shift {
        assert(b.drop_last() =~= a);
        assert(b.last() == "Shift"@);
    } else {
        assert(b =~= a);
    }
    assert(read_words(b) == (ctrl, shift, false, None::<Seq<char>>));
    let d = modifier_words(ctrl, shift, alt);
    if alt {
        assert(d.drop_last() =~= b);
        assert(d.last() == "Alt"@);
    } else {
        assert(d =~= b);
    }
}

// ---------------------------------------------------------------------------
// Actions
// ---------------------------------------------------------------------------

/// The fixed set of built-in actions FileMan exposes for shortcuts and the
/// toolbar. Adding a new user-facing command means adding a variant here.
#[derive(Debug, Clone, Copy, PartialEq, Eq, Hash, Structural)]
pub enum Action {
    Copy,
    Cut,
    Paste,
    Delete,
    Rename,
    NewFolder,
    NewFile,
    CopyFilename,
    CopyFolderPath,
    ExtractHere,
    ExtractTo,
    ToggleFavourite,
    GoBack,
    GoForward,
    GoUp,
    NewTab,
    CloseTab,
    Refresh,
    Find,
    ToggleSettings,
    SelectAll,
}

impl Action {
    /// All actions.
    pub const ALL: [Action; 21] = [
        Action::Copy,
        Action::Cut,
        Action::Paste,
        Action::Delete,
        Action::Rename,
        Action::NewFolder,
        Action::NewFile,
        Action::CopyFilename,
        Action::CopyFolderPath,
        Action::ExtractHere,
        Action::ExtractTo,
        Action::ToggleFavourite,
        Action::GoBack,
        Action::GoForward,
        Action::GoUp,
        Action::NewTab,
        Action::CloseTab,
        Action::Refresh,
        Action::Find,
        Action::ToggleSettings,
        Action::SelectAll,
    ];

    /// The text under which an action is stored.
    pub open spec fn id_text(self) -> Seq<char> {
        match self {
            Action::Copy => "copy"@,
            Action::Cut => "cut"@,
            Action::Paste => "paste"@,
            Action::Delete => "delete"@,
            Action::Rename => "rename"@,
            Action::NewFolder => "new_folder"@,
            Action::NewFile => "new_file"@,
            Action::CopyFilename => "copy_filename"@,
            Action::CopyFolderPath => "copy_folder_path"@,
            Action::ExtractHere => "extract_here"@,
            Action::ExtractTo => "extract_to"@,
            Action::ToggleFavourite => "toggle_favourite"@,
            Action::GoBack => "go_back"@,
            Action::GoForward => "go_forward"@,
            Action::GoUp => "go_up"@,
            Action::NewTab => "new_tab"@,
            Action::CloseTab => "close_tab"@,
            Action::Refresh => "refresh"@,
            Action::Find => "find"@,
            Action::ToggleSettings => "toggle_settings"@,
            Action::SelectAll => "select_all"@,
        }
    }

    /// What an action is called on screen.
    pub open spec fn label_text(self) -> Seq<char> {
        match self {
            Action::Copy => "Copy"@,
            Action::Cut => "Cut"@,
            Action::Paste => "Paste"@,
            Action::Delete => "Delete"@,
            Action::Rename => "Rename"@,
            Action::NewFolder => "New Folder"@,
            Action::NewFile => "New File"@,
            Action::CopyFilename => "Copy Filename"@,
            Action::CopyFolderPath => "Copy Folder Path"@,
            Action::ExtractHere => "Extract Here"@,
            Action::ExtractTo => "Extract to..."@,
            Action::ToggleFavourite => "Toggle Favourite"@,
            Action::GoBack => "Back"@,
            Action::GoForward => "Forward"@,
            Action::GoUp => "Up"@,
            Action::NewTab => "New Tab"@,
            Action::CloseTab => "Close Tab"@,
            Action::Refresh => "Refresh"@,
            Action::Find => "Find"@,
            Action::ToggleSettings => "Settings"@,
            Action::SelectAll => "Select All"@,
        }
    }

    /// The first of `all` that is stored under `id`.
    pub open spec fn find_id(all: Seq<Action>, id: Seq<char>) -> Option<Action>
        decreases all.len(),
    {
        if all.len() == 0 {
            None
        } else if all[0].id_text() == id {
            Some(all[0])
        } else {
            Action::find_id(all.subrange(1, all.len() as int), id)
        }
    }

    /// The action that is stored under `id`.
    pub open spec fn of_id(id: Seq<char>) -> Option<Action> {
        Action::find_id(Action::ALL@, id)
    }

    /// The combinations that an action has before anybody binds it.
    pub open spec fn default_combos(self) -> Seq<ComboView> {
        match self {
            Action::Copy => seq![(true, false, false, "C"@)],
            Action::Cut => seq![(true, false, false, "X"@)],
            Action::Paste => seq![(true, false, false, "V"@)],
            Action::Find => seq![(true, false, false, "F"@)],
            Action::Refresh => seq![(false, false, false, "F5"@)],
            Action::GoUp => seq![(false, false, false, "Backspace"@)],
            Action::Rename => seq![(false, false, false, "F2"@)],
            Action::CopyFilename => seq![(false, false, false, "F3"@), (true, true, false, "C"@)],
            Action::CopyFolderPath => seq![(false, false, false, "F4"@)],
            Action::Delete => seq![(false, false, false, "Delete"@)],
            Action::SelectAll => seq![(true, false, false, "A"@)],
            _ => Seq::<ComboView>::empty(),
        }
    }

    /// Stable string id for storage: never changes even if `label` does.
    pub fn id(self) -> (r: &'static str)
        ensures
            r@ == self.id_text(),
    {
        match self {
            Action::Copy => "copy",
            Action::Cut => "cut",
            Action::Paste => "paste",
            Action::Delete => "delete",
            Action::Rename => "rename",
            Action::NewFolder => "new_folder",
            Action::NewFile => "new_file",
            Action::CopyFilename => "copy_filename",
            Action::CopyFolderPath => "copy_folder_path",
            Action::ExtractHere => "extract_here",
            Action::ExtractTo => "extract_to",
            Action::ToggleFavourite => "toggle_favourite",
            Action::GoBack => "go_back",
            Action::GoForward => "go_forward",
            Action::GoUp => "go_up",
            Action::NewTab => "new_tab",
            Action::CloseTab => "close_tab",
            Action::Refresh => "refresh",
            Action::Find => "find",
            Action::ToggleSettings => "toggle_settings",
            Action::SelectAll => "select_all",
        }
    }

    /// The action that is stored under `id`.
    pub fn from_id(id: &str) -> (r: Option<Action>)
        ensures
            r == Action::of_id(id@),
    {
        let all = Action::ALL;
        let mut i: usize = 0;
        assert(all@.subrange(0, 21) =~= all@);
        while i < 21
            invariant
                i <= 21,
                all@.len() == 21,
                all == Action::ALL,
                Action::of_id(id@) == Action::find_id(all@.subrange(i as int, 21), id@),
            decreases 21 - i,
        {
            assert(all@.subrange(i as int, 21)[0] == all@[i as int]);
            if str_eq(all[i].id(), id) {
                return Some(all[i]);
            }
            assert(all@.subrange(i as int, 21).subrange(1, 21 - i) =~= all@.subrange(i + 1, 21));
            i = i + 1;
        }
        None
    }

    /// What the action is called on screen.
    pub fn label(self) -> (r: &'static str)
        ensures
            r@ == self.label_text(),
    {
        match self {
            Action::Copy => "Copy",
            Action::Cut => "Cut",
            Action::Paste => "Paste",
            Action::Delete => "Delete",
            Action::Rename => "Rename",
            Action::NewFolder => "New Folder",
            Action::NewFile => "New File",
            Action::CopyFilename => "Copy Filename",
            Action::CopyFolderPath => "Copy Folder Path",
            Action::ExtractHere => "Extract Here",
            Action::ExtractTo => "Extract to...",
            Action::ToggleFavourite => "Toggle Favourite",
            Action::GoBack => "Back",
            Action::GoForward => "Forward",
            Action::GoUp => "Up",
            Action::NewTab => "New Tab",
            Action::CloseTab => "Close Tab",
            Action::Refresh => "Refresh",
            Action::Find => "Find",
            Action::ToggleSettings => "Settings",
            Action::SelectAll => "Select All",
        }
    }

    /// Default shortcuts, in force until they are bound otherwise. An action
    /// can have more than one (e.g. Copy Filename is both F3 and the
    /// Explorer-style Ctrl+Shift+C).
    pub fn default_shortcuts(self) -> (r: Vec<KeyCombo>)
        ensures
            combo_views(r@) == self.default_combos(),
    {
        let mut out: Vec<KeyCombo> = Vec::new();
        match self {
            Action::Copy => {
                out.push(KeyCombo::ctrl("C"));
            },
            Action::Cut => {
                out.push(KeyCombo::ctrl("X"));
            },
            Action::Paste => {
                out.push(KeyCombo::ctrl("V"));
            },
            Action::Find => {
                out.push(KeyCombo::ctrl("F"));
            },
            Action::Refresh => {
                out.push(KeyCombo::plain("F5"));
            },
            Action::GoUp => {
                out.push(KeyCombo::plain("Backspace"));
            },
            Action::Rename => {
                out.push(KeyCombo::plain("F2"));
            },
            Action::CopyFilename => {
                out.push(KeyCombo::plain("F3"));
                out.push(KeyCombo::new(true, true, false, "C"));
            },
            Action::CopyFolderPath => {
                out.push(KeyCombo::plain("F4"));
            },
            Action::Delete => {
                out.push(KeyCombo::plain("Delete"));
            },
            Action::SelectAll => {
                out.push(KeyCombo::ctrl("A"));
            },
            _ => {},
        }
        assert(combo_views(out@) =~= self.default_combos());
        out
    }
}

/// What the combinations of a vector are made of.
pub open spec fn combo_views(v: Seq<KeyCombo>) -> Seq<ComboView> {
    Seq::new(v.len(), |i: int| v[i]@)
}

/// The ids of different actions differ, and none starts like the id of a
/// custom action.
proof fn lemma_action_ids()
    ensures
        forall|a: Action, b: Action| a.id_text() == b.id_text() ==> a == b,
        forall|a: Action| !text::has_prefix(#[trigger] a.id_text(), "custom:"@),
{
    reveal_strlit("copy");
    reveal_strlit("cut");
    reveal_strlit("paste");
    reveal_strlit("delete");
    reveal_strlit("rename");
    reveal_strlit("new_folder");
    reveal_strlit("new_file");
    reveal_strlit("copy_filename");
    reveal_strlit("copy_folder_path");
    reveal_strlit("extract_here");
    reveal_strlit("extract_to");
    reveal_strlit("toggle_favourite");
    reveal_strlit("go_back");
    reveal_strlit("go_forward");
    reveal_strlit("go_up");
    reveal_strlit("new_tab");
    reveal_strlit("close_tab");
    reveal_strlit("refresh");
    reveal_strlit("find");
    reveal_strlit("toggle_settings");
    reveal_strlit("select_all");
    reveal_strlit("custom:");
    assert forall|a: Action, b: Action| a.id_text() == b.id_text() implies a == b by {
        assert(a.id_text().len() == b.id_text().len());
        assert(a.id_text()[0] == b.id_text()[0]);
        assert(a.id_text()[1] == b.id_text()[1]);
    }
    assert forall|a: Action| !text::has_prefix(#[trigger] a.id_text(), "custom:"@) by {
        let s = a.id_text();
        if s.len() >= 7 {
            assert(s.subrange(0, 7)[0] == s[0]);
            assert(s.subrange(0, 7)[1] == s[1]);
            assert("custom:"@[0] == 'c' && "custom:"@[1] == 'u');
        }
    }
}

proof fn lemma_find_id(all: Seq<Action>, a: Action)
    requires
        all.contains(a),
    ensures
        Action::find_id(all, a.id_text()) == Some(a),
    decreases all.len(),
{
    lemma_action_ids();
    if all[0].id_text() != a.id_text() {
        let rest = all.subrange(1, all.len() as int);
        let i = choose|i: int| 0 <= i < all.len() && all[i] == a;
        assert(rest[i - 1] == a);
        lemma_find_id(rest, a);
    }
}

/// Every action is in the list of all actions.
proof fn lemma_all_actions(a: Action)
    ensures
        Action::ALL@.contains(a),
{
    let all = Action::ALL@;
    assert(all[0] == Action::Copy);
    assert(all[1] == Action::Cut);
    assert(all[2] == Action::Paste);
    assert(all[3] == Action::Delete);
    assert(all[4] == Action::Rename);
    assert(all[5] == Action::NewFolder);
    assert(all[6] == Action::NewFile);
    assert(all[7] == Action::CopyFilename);
    assert(all[8] == Action::CopyFolderPath);
    assert(all[9] == Action::ExtractHere);
    assert(all[10] == Action::ExtractTo);
    assert(all[11] == Action::ToggleFavourite);
    assert(all[12] == Action::GoBack);
    assert(all[13] == Action::GoForward);
    assert(all[14] == Action::GoUp);
    assert(all[15] == Action::NewTab);
    assert(all[16] == Action::CloseTab);
    assert(all[17] == Action::Refresh);
    assert(all[18] == Action::Find);
    assert(all[19] == Action::ToggleSettings);
    assert(all[20] == Action::SelectAll);
}

/// An action is found again under its id.
pub proof fn law_action_id_round_trips(a: Action)
    ensures
        Action::of_id(a.id_text()) == Some(a),
{
    lemma_all_actions(a);
    lemma_find_id(Action::ALL@, a);
}

/// Either a built-in [`Action`] or a user-defined "open with `<exe>`" custom
/// action (referencing a custom action by its id). The unit both the
/// shortcut map and the toolbar layout are built from.
#[derive(Debug, Clone, Copy, PartialEq, Eq, Hash, Structural)]
pub enum ActionRef {
    Builtin(Action),
    Custom(i64),
}

/// A user-defined "open with `<exe>`" toolbar/shortcut action.
#[derive(Debug, PartialEq)]
pub struct CustomAction {
    pub id: i64,
    pub label: String,
    pub exe_path: String,
}

/// The label of the first of `customs` with that id.
pub open spec fn custom_label(customs: Seq<CustomAction>, id: i64) -> Seq<char>
    decreases customs.len(),
{
    if customs.len() == 0 {
        "(deleted action)"@
    } else if customs[0].id == id {
        customs[0].label@
    } else {
        custom_label(customs.subrange(1, customs.len() as int), id)
    }
}

impl ActionRef {
    /// The text under which an action is stored.
    pub open spec fn id_text(self) -> Seq<char> {
        match self {
            ActionRef::Builtin(a) => a.id_text(),
            ActionRef::Custom(id) => "custom:"@ + text::decimal_int(id as int),
        }
    }

    /// The action that is stored under `id`.
    pub open spec fn of_id(id: Seq<char>) -> Option<ActionRef> {
        if text::has_prefix(id, "custom:"@) {
            match text::i64_value(id.subrange("custom:"@.len() as int, id.len() as int)) {
                Some(n) => Some(ActionRef::Custom(n)),
                None => None,
            }
        } else {
            match Action::of_id(id) {
                Some(a) => Some(ActionRef::Builtin(a)),
                None => None,
            }
        }
    }

    /// The text under which the action is stored.
    pub fn to_id(self) -> (r: String)
        ensures
            r@ == self.id_text(),
    {
        match self {
            ActionRef::Builtin(a) => a.id().to_owned(),
            ActionRef::Custom(id) => {
                let mut s = "custom:".to_owned();
                s.append(i64_to_string(id).as_str());
                s
            },
        }
    }

    /// The action that is stored under `id`.
    pub fn from_id(id: &str) -> (r: Option<ActionRef>)
        ensures
            r == ActionRef::of_id(id@),
    {
        match strip_prefix(id, "custom:") {
            Some(rest) => match parse_i64(rest.as_str()) {
                Some(n) => Some(ActionRef::Custom(n)),
                None => None,
            },
            None => match Action::from_id(id) {
                Some(a) => Some(ActionRef::Builtin(a)),
                None => None,
            },
        }
    }

    /// Display label, resolving a custom action's name from `custom_actions`
    /// (falling back to a placeholder if the row was since deleted).
    pub fn label(self, custom_actions: &Vec<CustomAction>) -> (r: String)
        ensures
            r@ == (match self {
                ActionRef::Builtin(a) => a.label_text(),
                ActionRef::Custom(id) => custom_label(custom_actions@, id),
            }),
    {
        match self {
            ActionRef::Builtin(a) => a.label().to_owned(),
            ActionRef::Custom(id) => {
                let mut i: usize = 0;
                let ghost all = custom_actions@;
                assert(all.subrange(0, all.len() as int) =~= all);
                while i < custom_actions.len()
                    invariant
                        i <= custom_actions@.len(),
                        self == ActionRef::Custom(id),
                        all == custom_actions@,
                        custom_label(all, id) == custom_label(
                            all.subrange(i as int, all.len() as int),
                            id,
                        ),
                    decreases custom_actions@.len() - i,
                {
                    let ghost rest = all.subrange(i as int, all.len() as int);
                    assert(rest[0] == all[i as int]);
                    if custom_actions[i].id == id {
                        return custom_actions[i].label.clone();
                    }
                    assert(rest.subrange(1, rest.len() as int) =~= all.subrange(
                        i + 1,
                        all.len() as int,
                    ));
                    i = i + 1;
                }
                "(deleted action)".to_owned()
            },
        }
    }
}

/// An action, built-in or custom, is found again under its id.
pub proof fn law_action_ref_id_round_trips(a: ActionRef)
    ensures
        ActionRef::of_id(a.id_text()) == Some(a),
{
    match a {
        ActionRef::Builtin(b) => {
            lemma_action_ids();
            law_action_id_round_trips(b);
        },
        ActionRef::Custom(n) => {
            let p = "custom:"@;
            let d = text::decimal_int(n as int);
            let s = p + d;
            assert(s.subrange(0, p.len() as int) =~= p);
            assert(s.subrange(p.len() as int, s.len() as int) =~= d);
            text::law_parse_undoes_decimal(n);
        },
    }
}

/// Different actions have different ids.
pub proof fn law_action_ref_ids_differ(a: ActionRef, b: ActionRef)
    requires
        a.id_text() == b.id_text(),
    ensures
        a == b,
{
    law_action_ref_id_round_trips(a);
    law_action_ref_id_round_trips(b);
}

// ---------------------------------------------------------------------------
// Scopes
// ---------------------------------------------------------------------------

/// Where a binding/layout row applies: a specific user, or the shared
/// global default (used to seed new users and as the fallback tier).
#[derive(Debug, Clone, Copy, PartialEq, Eq, Structural)]
pub enum Scope {
    Global,
    User(i64),
}

impl Scope {
    /// Whose rows the scope names.
    pub open spec fn owner(self) -> Option<i64> {
        match self {
            Scope::Global => None,
            Scope::User(id) => Some(id),
        }
    }

    /// The text under which rows of a scope are stored.
    pub open spec fn key_text(self) -> Seq<char> {
        match self {
            Scope::Global => "global"@,
            Scope::User(id) => "user:"@ + text::decimal_int(id as int),
        }
    }

    /// The scope whose rows are stored under a text.
    pub open spec fn of_key(key: Seq<char>) -> Option<Scope> {
        if key == "global"@ {
            Some(Scope::Global)
        } else if text::has_prefix(key, "user:"@) {
            match text::i64_value(key.subrange("user:"@.len() as int, key.len() as int)) {
                Some(id) => Some(Scope::User(id)),
                None => None,
            }
        } else {
            None
        }
    }

    fn row_owner(self) -> (r: Option<i64>)
        ensures
            r == self.owner(),
    {
        match self {
            Scope::Global => None,
            Scope::User(id) => Some(id),
        }
    }

    /// The text under which rows of the scope are stored.
    pub fn to_key(self) -> (r: String)
        ensures
            r@ == self.key_text(),
    {
        match self {
            Scope::Global => "global".to_owned(),
            Scope::User(id) => {
                let mut s = "user:".to_owned();
                s.append(i64_to_string(id).as_str());
                s
            },
        }
    }

    /// The scope whose rows are stored under a text.
    pub fn from_key(key: &str) -> (r: Option<Scope>)
        ensures
            r == Scope::of_key(key@),
    {
        if str_eq(key, "global") {
            return Some(Scope::Global);
        }
        match strip_prefix(key, "user:") {
            Some(rest) => match parse_i64(rest.as_str()) {
                Some(id) => Some(Scope::User(id)),
                None => None,
            },
            None => None,
        }
    }
}

/// A scope is found again under its text.
pub proof fn law_scope_key_round_trips(s: Scope)
    ensures
        Scope::of_key(s.key_text()) == Some(s),
{
    reveal_strlit("global");
    reveal_strlit("user:");
    match s {
        Scope::Global => {},
        Scope::User(id) => {
            let p = "user:"@;
            let d = text::decimal_int(id as int);
            let k = p + d;
            assert(k[0] == 'u' && "global"@[0] == 'g');
            assert(k.subrange(0, p.len() as int) =~= p);
            assert(k.subrange(p.len() as int, k.len() as int) =~= d);
            text::law_parse_undoes_decimal(id);
        },
    }
}

// ---------------------------------------------------------------------------
// Toolbars
// ---------------------------------------------------------------------------

/// The actions that a list of ids names, without the ids that name none.
pub open spec fn known_actions(ids: Seq<Seq<char>>) -> Seq<ActionRef>
    decreases ids.len(),
{
    if ids.len() == 0 {
        Seq::<ActionRef>::empty()
    } else {
        let front = known_actions(ids.drop_last());
        match ActionRef::of_id(ids.last()) {
            Some(a) => front.push(a),
            None => front,
        }
    }
}

/// The ids of a list of actions.
pub open spec fn action_ids(actions: Seq<ActionRef>) -> Seq<Seq<char>> {
    Seq::new(actions.len(), |i: int| actions[i].id_text())
}

/// The ids that are stored for an owner.
pub open spec fn layout_ids(
    m: Map<Option<i64>, Vec<String>>,
    owner: Option<i64>,
) -> Seq<Seq<char>> {
    if m.contains_key(owner) {
        text::texts(m[owner]@)
    } else {
        Seq::<Seq<char>>::empty()
    }
}

/// The toolbar that a user gets: their own, or the shared one where theirs
/// has no button.
pub open spec fn effective_toolbar(
    m: Map<Option<i64>, Vec<String>>,
    user_id: i64,
) -> Seq<ActionRef> {
    let own = known_actions(layout_ids(m, Some(user_id)));
    if own.len() > 0 {
        own
    } else {
        known_actions(layout_ids(m, None))
    }
}

/// The actions that a list of ids names.
fn actions_of(ids: &Vec<String>) -> (r: Vec<ActionRef>)
    ensures
        r@ == known_actions(text::texts(ids@)),
{
    let mut out: Vec<ActionRef> = Vec::new();
    let mut i: usize = 0;
    let ghost all = text::texts(ids@);
    while i < ids.len()
        invariant
            i <= ids@.len(),
            all == text::texts(ids@),
            out@ == known_actions(all.subrange(0, i as int)),
        decreases ids@.len() - i,
    {
        assert(all.subrange(0, i + 1).drop_last() =~= all.subrange(0, i as int));
        match ActionRef::from_id(ids[i].as_str()) {
            Some(a) => {
                out.push(a);
            },
            None => {},
        }
        i = i + 1;
    }
    assert(all.subrange(0, i as int) =~= all);
    out
}

/// Reads the toolbar layout for `scope`, in its order.
pub fn get_layout(db: &Database, scope: Scope) -> (r: Vec<ActionRef>)
    requires
        db.wf(),
    ensures
        r@ == known_actions(layout_ids(db.toolbars@, scope.owner())),
{
    match db.toolbars.get(scope.row_owner()) {
        Some(ids) => actions_of(ids),
        None => Vec::new(),
    }
}

/// Overwrites the stored ids of the toolbar for `scope`.
pub fn set_layout_ids(db: &mut Database, scope: Scope, ids: Vec<String>)
    requires
        old(db).wf(),
    ensures
        final(db).wf(),
        final(db).same_but_toolbars(*old(db)),
        final(db).toolbars@ == old(db).toolbars@.insert(scope.owner(), ids),
{
    db.toolbars.put(scope.row_owner(), ids);
}

/// Overwrites the toolbar layout for `scope`.
pub fn set_layout(db: &mut Database, scope: Scope, actions: &Vec<ActionRef>)
    requires
        old(db).wf(),
    ensures
        final(db).wf(),
        final(db).same_but_toolbars(*old(db)),
        layout_ids(final(db).toolbars@, scope.owner()) == action_ids(actions@),
        forall|o: Option<i64>|
            o != scope.owner() ==> #[trigger] layout_ids(final(db).toolbars@, o) == layout_ids(
                old(db).toolbars@,
                o,
            ),
{
    let mut ids: Vec<String> = Vec::new();
    let mut i: usize = 0;
    while i < actions.len()
        invariant
            i <= actions@.len(),
            ids@.len() == i,
            forall|j: int| 0 <= j < i ==> (#[trigger] ids@[j])@ == actions@[j].id_text(),
        decreases actions@.len() - i,
    {
        ids.push(actions[i].to_id());
        i = i + 1;
    }
    assert(text::texts(ids@) =~= action_ids(actions@));
    set_layout_ids(db, scope, ids);
}

/// The effective toolbar for `user_id`: their own layout if they have one,
/// otherwise the global default.
pub fn load_toolbar(db: &Database, user_id: i64) -> (r: Vec<ActionRef>)
    requires
        db.wf(),
    ensures
        r@ == effective_toolbar(db.toolbars@, user_id),
{
    let own = get_layout(db, Scope::User(user_id));
    if own.len() > 0 {
        own
    } else {
        get_layout(db, Scope::Global)
    }
}

/// The buttons of the shared toolbar before anybody changes it.
pub open spec fn default_toolbar() -> Seq<ActionRef> {
    seq![
        ActionRef::Builtin(Action::Copy),
        ActionRef::Builtin(Action::Cut),
        ActionRef::Builtin(Action::Paste),
        ActionRef::Builtin(Action::Delete),
        ActionRef::Builtin(Action::Rename),
        ActionRef::Builtin(Action::ExtractHere),
        ActionRef::Builtin(Action::ExtractTo),
        ActionRef::Builtin(Action::CopyFilename),
        ActionRef::Builtin(Action::CopyFolderPath),
        ActionRef::Builtin(Action::ToggleFavourite),
        ActionRef::Builtin(Action::Find),
        ActionRef::Builtin(Action::NewFolder),
        ActionRef::Builtin(Action::NewFile),
    ]
}

/// Seeds the global toolbar layout, where none is stored, with the default
/// button order.
pub fn init_tables(db: &mut Database)
    requires
        old(db).wf(),
    ensures
        final(db).wf(),
        final(db).same_but_toolbars(*old(db)),
        layout_ids(old(db).toolbars@, None).len() > 0 ==> final(db).toolbars == old(db).toolbars,
        layout_ids(old(db).toolbars@, None).len() == 0 ==> layout_ids(final(db).toolbars@, None)
            == action_ids(default_toolbar()),
        forall|o: Option<i64>|
            o != None::<i64> ==> #[trigger] layout_ids(final(db).toolbars@, o) == layout_ids(
                old(db).toolbars@,
                o,
            ),
{
    let seeded = match db.toolbars.get(None) {
        Some(ids) => ids.len() > 0,
        None => false,
    };
    if !seeded {
        let mut buttons: Vec<ActionRef> = Vec::new();
        buttons.push(ActionRef::Builtin(Action::Copy));
        buttons.push(ActionRef::Builtin(Action::Cut));
        buttons.push(ActionRef::Builtin(Action::Paste));
        buttons.push(ActionRef::Builtin(Action::Delete));
        buttons.push(ActionRef::Builtin(Action::Rename));
        buttons.push(ActionRef::Builtin(Action::ExtractHere));
        buttons.push(ActionRef::Builtin(Action::ExtractTo));
        buttons.push(ActionRef::Builtin(Action::CopyFilename));
        buttons.push(ActionRef::Builtin(Action::CopyFolderPath));
        buttons.push(ActionRef::Builtin(Action::ToggleFavourite));
        buttons.push(ActionRef::Builtin(Action::Find));
        buttons.push(ActionRef::Builtin(Action::NewFolder));
        buttons.push(ActionRef::Builtin(Action::NewFile));
        assert(buttons@ =~= default_toolbar());
        set_layout(db, Scope::Global, &buttons);
    }
}

/// A toolbar is read back as it was written.
pub proof fn law_layout_round_trips(actions: Seq<ActionRef>)
    ensures
        known_actions(action_ids(actions)) == actions,
    decreases actions.len(),
{
    if actions.len() > 0 {
        law_layout_round_trips(actions.drop_last());
        law_action_ref_id_round_trips(actions.last());
        assert(action_ids(actions).drop_last() =~= action_ids(actions.drop_last()));
        assert(actions.drop_last().push(actions.last()) =~= actions);
    } else {
        assert(actions =~= Seq::<ActionRef>::empty());
    }
}

// ---------------------------------------------------------------------------
// Custom actions
// ---------------------------------------------------------------------------

/// The rows that a user sees: the shared ones and their own.
pub open spec fn visible_customs(rows: Seq<CustomRow>, user_id: i64) -> Seq<CustomRow>
    decreases rows.len(),
{
    if rows.len() == 0 {
        rows
    } else if rows.last().owner == None::<i64> || rows.last().owner == Some(user_id) {
        visible_customs(rows.drop_last(), user_id).push(rows.last())
    } else {
        visible_customs(rows.drop_last(), user_id)
    }
}

/// `list` shows `rows`, one by one.
pub open spec fn shows_customs(list: Seq<CustomAction>, rows: Seq<CustomRow>) -> bool {
    &&& list.len() == rows.len()
    &&& forall|i: int|
        0 <= i < list.len() ==> (#[trigger] list[i]).id == rows[i].id && list[i].label@
            == rows[i].label@ && list[i].exe_path@ == rows[i].exe_path@
}

/// Lists a user's custom "open with" actions (global scope + their own), in
/// the order of their ids.
pub fn list_custom_actions(db: &Database, user_id: i64) -> (r: Vec<CustomAction>)
    requires
        db.wf(),
    ensures
        shows_customs(r@, visible_customs(db.custom_actions@, user_id)),
{
    let mut out: Vec<CustomAction> = Vec::new();
    let mut i: usize = 0;
    let ghost rows = db.custom_actions@;
    while i < db.custom_actions.len()
        invariant
            i <= db.custom_actions@.len(),
            rows == db.custom_actions@,
            shows_customs(out@, visible_customs(rows.subrange(0, i as int), user_id)),
        decreases db.custom_actions@.len() - i,
    {
        assert(rows.subrange(0, i + 1).drop_last() =~= rows.subrange(0, i as int));
        let row = &db.custom_actions[i];
        let ghost seen = visible_customs(rows.subrange(0, i as int), user_id);
        let ghost before = out@;
        if row.owner == None || row.owner == Some(user_id) {
            out.push(
                CustomAction {
                    id: row.id,
                    label: row.label.clone(),
                    exe_path: row.exe_path.clone(),
                },
            );
            assert forall|j: int| 0 <= j < out@.len() implies (#[trigger] out@[j]).id
                == seen.push(rows[i as int])[j].id && out@[j].label@ == seen.push(
                rows[i as int],
            )[j].label@ && out@[j].exe_path@ == seen.push(rows[i as int])[j].exe_path@ by {
                if j < before.len() {
                    assert(out@[j] == before[j]);
                }
            }
        }
        i = i + 1;
    }
    assert(rows.subrange(0, i as int) =~= rows);
    out
}

/// `after` is `before` with a custom action behind the others.
pub open spec fn custom_added(
    before: Seq<CustomRow>,
    after: Seq<CustomRow>,
    id: i64,
    label: Seq<char>,
    exe_path: Seq<char>,
    owner: Option<i64>,
) -> bool {
    &&& after.len() == before.len() + 1
    &&& after.drop_last() == before
    &&& after.last().id == id
    &&& after.last().label@ == label
    &&& after.last().exe_path@ == exe_path
    &&& after.last().owner == owner
}

fn push_custom(db: &mut Database, id: i64, label: &str, exe_path: &str, owner: Option<i64>)
    requires
        old(db).wf(),
        id > old(db).last_custom_id,
    ensures
        final(db).wf(),
        final(db).same_but_customs(*old(db)),
        custom_added(
            old(db).custom_actions@,
            final(db).custom_actions@,
            id,
            label@,
            exe_path@,
            owner,
        ),
        final(db).last_custom_id == id,
{
    let ghost before = db.custom_actions@;
    db.custom_actions.push(
        CustomRow { id, label: label.to_owned(), exe_path: exe_path.to_owned(), owner },
    );
    db.last_custom_id = id;
    proof {
        let after = db.custom_actions@;
        assert(after.drop_last() =~= before);
        assert forall|i: int, j: int| 0 <= i < j < after.len() implies (#[trigger] after[i]).id < (
        #[trigger] after[j]).id by {
            assert(after[i] == before[i]);
            if j < before.len() {
                assert(after[j] == before[j]);
            }
        }
        assert forall|i: int| 0 <= i < after.len() implies (#[trigger] after[i]).id <= id by {
            if i < before.len() {
                assert(after[i] == before[i]);
            }
        }
    }
}

/// Adds a custom "open with `<exe>`" action, scoped to `user_id`, under an id
/// that no action ever had.
pub fn add_custom_action(db: &mut Database, user_id: i64, label: &str, exe_path: &str) -> (r:
    Result<i64, DbError>)
    requires
        old(db).wf(),
    ensures
        final(db).wf(),
        match r {
            Ok(id) => {
                &&& id == old(db).last_custom_id + 1
                &&& custom_added(
                    old(db).custom_actions@,
                    final(db).custom_actions@,
                    id,
                    label@,
                    exe_path@,
                    Some(user_id),
                )
                &&& final(db).last_custom_id == id
                &&& final(db).same_but_customs(*old(db))
            },
            Err(e) => e == DbError::Full && old(db).last_custom_id == i64::MAX && *final(db)
                == *old(db),
        },
{
    if db.last_custom_id == i64::MAX {
        return Err(DbError::Full);
    }
    let id: i64 = db.last_custom_id + 1;
    push_custom(db, id, label, exe_path, Some(user_id));
    Ok(id)
}

/// Puts a stored custom action back, behind those of smaller ids. A row whose
/// id does not fit behind the others is left out.
pub fn restore_custom_action(
    db: &mut Database,
    id: i64,
    label: &str,
    exe_path: &str,
    scope: Scope,
) -> (r: bool)
    requires
        old(db).wf(),
    ensures
        final(db).wf(),
        r == (id > old(db).last_custom_id),
        r ==> custom_added(
            old(db).custom_actions@,
            final(db).custom_actions@,
            id,
            label@,
            exe_path@,
            scope.owner(),
        ),
        r ==> final(db).last_custom_id == id && final(db).same_but_customs(*old(db)),
        !r ==> *final(db) == *old(db),
{
    if id > db.last_custom_id {
        push_custom(db, id, label, exe_path, scope.row_owner());
        true
    } else {
        false
    }
}

/// Removes a custom action by row id.
pub fn remove_custom_action(db: &mut Database, id: i64)
    requires
        old(db).wf(),
    ensures
        final(db).wf(),
        final(db).same_but_customs(*old(db)),
        final(db).last_custom_id == old(db).last_custom_id,
        final(db).custom_actions@ == customs_without(old(db).custom_actions@, id),
{
    let mut i: usize = 0;
    let ghost rows = db.custom_actions@;
    while i < db.custom_actions.len()
        invariant
            i <= db.custom_actions@.len(),
            *db == *old(db),
            db.wf(),
            rows == db.custom_actions@,
            forall|j: int| 0 <= j < i ==> (#[trigger] rows[j]).id != id,
        decreases db.custom_actions@.len() - i,
    {
        if db.custom_actions[i].id == id {
            db.custom_actions.remove(i);
            proof {
                let after = db.custom_actions@;
                assert(after =~= rows.remove(i as int));
                assert forall|a: int| 0 <= a < after.len() implies (#[trigger] after[a]) == rows[if a
                    < i {
                    a
                } else {
                    a + 1
                }] by {}
                assert forall|a: int, b: int| 0 <= a < b < after.len() implies (
                #[trigger] after[a]).id < (#[trigger] after[b]).id by {}
                lemma_customs_without(rows, id, i as int);
            }
            return;
        }
        i = i + 1;
    }
    proof {
        lemma_customs_without_absent(rows, id);
    }
}

/// The rows other than the one with that id.
pub open spec fn customs_without(rows: Seq<CustomRow>, id: i64) -> Seq<CustomRow>
    decreases rows.len(),
{
    if rows.len() == 0 {
        rows
    } else if rows.last().id == id {
        customs_without(rows.drop_last(), id)
    } else {
        customs_without(rows.drop_last(), id).push(rows.last())
    }
}

proof fn lemma_customs_without_absent(rows: Seq<CustomRow>, id: i64)
    requires
        forall|j: int| 0 <= j < rows.len() ==> (#[trigger] rows[j]).id != id,
    ensures
        customs_without(rows, id) == rows,
    decreases rows.len(),
{
    if rows.len() > 0 {
        assert forall|j: int| 0 <= j < rows.drop_last().len() implies (
        #[trigger] rows.drop_last()[j]).id != id by {
            assert(rows.drop_last()[j] == rows[j]);
        }
        lemma_customs_without_absent(rows.drop_last(), id);
        assert(rows[rows.len() - 1].id != id);
        assert(rows.drop_last().push(rows.last()) =~= rows);
    }
}

proof fn lemma_customs_without(rows: Seq<CustomRow>, id: i64, at: int)
    requires
        0 <= at < rows.len(),
        rows[at].id == id,
        forall|i: int, j: int| 0 <= i < j < rows.len() ==> (#[trigger] rows[i]).id < (
        #[trigger] rows[j]).id,
    ensures
        customs_without(rows, id) == rows.remove(at),
    decreases rows.len(),
{
    let front = rows.drop_last();
    assert forall|i: int, j: int| 0 <= i < j < front.len() implies (#[trigger] front[i]).id < (
    #[trigger] front[j]).id by {
        assert(front[i] == rows[i] && front[j] == rows[j]);
    }
    if at == rows.len() - 1 {
        assert forall|j: int| 0 <= j < front.len() implies (#[trigger] front[j]).id != id by {
            assert(front[j] == rows[j]);
        }
        lemma_customs_without_absent(front, id);
        assert(rows.remove(at) =~= front);
    } else {
        assert(rows[at].id < rows[rows.len() - 1].id);
        lemma_customs_without(front, id, at);
        assert(rows.remove(at) =~= front.remove(at).push(rows.last()));
    }
}

/// A user sees no custom action of another user, and every one of their own.
pub proof fn law_custom_actions_are_scoped(rows: Seq<CustomRow>, user_id: i64)
    ensures
        forall|i: int|
            0 <= i < visible_customs(rows, user_id).len() ==> ((#[trigger] visible_customs(
                rows,
                user_id,
            )[i]).owner is None || visible_customs(rows, user_id)[i].owner == Some(user_id)),
        forall|i: int|
            0 <= i < rows.len() && (#[trigger] rows[i]).owner == Some(user_id) ==> visible_customs(
                rows,
                user_id,
            ).contains(rows[i]),
    decreases rows.len(),
{
    if rows.len() > 0 {
        let front = rows.drop_last();
        law_custom_actions_are_scoped(front, user_id);
        let all = visible_customs(rows, user_id);
        let part = visible_customs(front, user_id);
        assert forall|i: int| 0 <= i < all.len() implies ((#[trigger] all[i]).owner is None
            || all[i].owner == Some(user_id)) by {
            if i < part.len() {
                assert(all[i] == part[i]);
            }
        }
        assert forall|i: int|
            0 <= i < rows.len() && (#[trigger] rows[i]).owner == Some(
                user_id,
            ) implies all.contains(rows[i]) by {
            if i < front.len() {
                assert(front[i] == rows[i]);
                assert(part.contains(rows[i]));
                let k = choose|k: int| 0 <= k < part.len() && part[k] == rows[i];
                assert(all[k] == rows[i]);
            } else {
                assert(all[all.len() - 1] == rows[i]);
            }
        }
    }
}

// ---------------------------------------------------------------------------
// Bindings
// ---------------------------------------------------------------------------

/// The stored id that marks a combination as bound to nothing: distinct from
/// having no row, which would let a default (or a broader scope's binding)
/// keep applying.
pub const UNBOUND_SENTINEL: &'static str = "none";

/// Shortcuts after the stored binding of `combo` to `id`. A text that is no
/// combination and an id that names no action change nothing.
pub open spec fn bound(
    m: Map<ComboView, ActionRef>,
    combo: Seq<char>,
    id: Seq<char>,
) -> Map<ComboView, ActionRef> {
    match parse_combo(combo) {
        None => m,
        Some(c) => if id == UNBOUND_SENTINEL@ {
            m.remove(c)
        } else {
            match ActionRef::of_id(id) {
                Some(a) => m.insert(c, a),
                None => m,
            }
        },
    }
}

/// Shortcuts after stored bindings, one by one.
pub open spec fn bound_all(m: Map<ComboView, ActionRef>, rows: Seq<Row>) -> Map<
    ComboView,
    ActionRef,
>
    decreases rows.len(),
{
    if rows.len() == 0 {
        m
    } else {
        bound(bound_all(m, rows.drop_last()), rows.last().key@, rows.last().value@)
    }
}

/// Shortcuts with some combinations of one action.
pub open spec fn with_combos(
    m: Map<ComboView, ActionRef>,
    combos: Seq<ComboView>,
    action: Action,
) -> Map<ComboView, ActionRef>
    decreases combos.len(),
{
    if combos.len() == 0 {
        m
    } else {
        with_combos(m, combos.drop_last(), action).insert(combos.last(), ActionRef::Builtin(action))
    }
}

/// The default shortcuts of some actions.
pub open spec fn default_map(actions: Seq<Action>) -> Map<ComboView, ActionRef>
    decreases actions.len(),
{
    if actions.len() == 0 {
        Map::empty()
    } else {
        with_combos(
            default_map(actions.drop_last()),
            actions.last().default_combos(),
            actions.last(),
        )
    }
}

/// The shortcuts of a user: the defaults, overridden by the shared bindings,
/// overridden by their own.
pub open spec fn effective_shortcuts(rows: Seq<Row>, user_id: i64) -> Map<ComboView, ActionRef> {
    bound_all(
        bound_all(default_map(Action::ALL@), table::owned(rows, None)),
        table::owned(rows, Some(user_id)),
    )
}

proof fn lemma_bound_by_views(m: Map<ComboView, ActionRef>, a: Seq<Row>, b: Seq<Row>)
    requires
        table::row_views(a) == table::row_views(b),
    ensures
        bound_all(m, a) == bound_all(m, b),
    decreases a.len(),
{
    assert(a.len() == table::row_views(a).len() && b.len() == table::row_views(b).len());
    if a.len() > 0 {
        let n = a.len() - 1;
        assert(table::row_views(a)[n] == table::row_view(a[n]));
        assert(table::row_views(b)[n] == table::row_view(b[n]));
        assert(table::row_views(a.drop_last()) =~= table::row_views(a).drop_last());
        assert(table::row_views(b.drop_last()) =~= table::row_views(b).drop_last());
        lemma_bound_by_views(m, a.drop_last(), b.drop_last());
    }
}

/// The shortcuts of a user depend on what the rows of the bindings tell alone.
pub proof fn lemma_shortcuts_by_views(a: Seq<Row>, b: Seq<Row>, user_id: i64)
    requires
        table::row_views(a) == table::row_views(b),
    ensures
        effective_shortcuts(a, user_id) == effective_shortcuts(b, user_id),
{
    table::lemma_views_decide(a, b, None);
    table::lemma_views_decide(a, b, Some(user_id));
    let start = default_map(Action::ALL@);
    lemma_bound_by_views(start, table::owned(a, None), table::owned(b, None));
    lemma_bound_by_views(
        bound_all(start, table::owned(a, None)),
        table::owned(a, Some(user_id)),
        table::owned(b, Some(user_id)),
    );
}

/// Applies stored bindings to a shortcut map.
fn apply_rows(map: &mut ShortcutMap, rows: &Vec<Row>)
    requires
        old(map).wf(),
    ensures
        final(map).wf(),
        final(map)@ == bound_all(old(map)@, rows@),
{
    let mut i: usize = 0;
    while i < rows.len()
        invariant
            i <= rows@.len(),
            map.wf(),
            map@ == bound_all(old(map)@, rows@.subrange(0, i as int)),
        decreases rows@.len() - i,
    {
        assert(rows@.subrange(0, i + 1).drop_last() =~= rows@.subrange(0, i as int));
        match KeyCombo::parse(rows[i].key.as_str()) {
            None => {},
            Some(combo) => {
                if str_eq(rows[i].value.as_str(), UNBOUND_SENTINEL) {
                    map.remove(&combo);
                } else {
                    match ActionRef::from_id(rows[i].value.as_str()) {
                        Some(a) => {
                            map.insert(combo, a);
                        },
                        None => {},
                    }
                }
            },
        }
        i = i + 1;
    }
    assert(rows@.subrange(0, i as int) =~= rows@);
}

/// The default shortcuts.
fn default_shortcut_map() -> (r: ShortcutMap)
    ensures
        r.wf(),
        r@ == default_map(Action::ALL@),
{
    let mut map = ShortcutMap::new();
    let all = Action::ALL;
    let mut i: usize = 0;
    while i < 21
        invariant
            i <= 21,
            all == Action::ALL,
            map.wf(),
            map@ == default_map(all@.subrange(0, i as int)),
        decreases 21 - i,
    {
        let action = all[i];
        let ghost before = map@;
        assert(all@.subrange(0, i + 1).drop_last() =~= all@.subrange(0, i as int));
        assert(all@.subrange(0, i + 1).last() == action);
        let combos = action.default_shortcuts();
        let ghost views = action.default_combos();
        let mut j: usize = 0;
        while j < combos.len()
            invariant
                j <= combos@.len(),
                map.wf(),
                views == combo_views(combos@),
                map@ == with_combos(before, views.subrange(0, j as int), action),
            decreases combos@.len() - j,
        {
            assert(views.subrange(0, j + 1).drop_last() =~= views.subrange(0, j as int));
            map.insert(combos[j].clone(), ActionRef::Builtin(action));
            j = j + 1;
        }
        assert(views.subrange(0, j as int) =~= views);
        i = i + 1;
    }
    assert(all@.subrange(0, 21) =~= all@);
    map
}

/// Builds the effective shortcut map for `user_id`: each `Action`'s hardcoded
/// default, overridden by any global binding, overridden by any per-user
/// binding.
pub fn load_shortcut_map(db: &Database, user_id: i64) -> (r: ShortcutMap)
    requires
        db.wf(),
    ensures
        r.wf(),
        r@ == effective_shortcuts(db.bindings.rows(), user_id),
{
    let mut map = default_shortcut_map();
    let shared = db.bindings.rows_of(None);
    apply_rows(&mut map, &shared);
    let own = db.bindings.rows_of(Some(user_id));
    apply_rows(&mut map, &own);
    map
}

/// What stands in the way of binding `combo` to `action`: another action that
/// is explicitly bound to it in the same scope.
pub open spec fn binding_conflict(
    m: Map<(Option<i64>, Seq<char>), Seq<char>>,
    scope: Scope,
    combo: ComboView,
    action: ActionRef,
) -> Option<ActionRef> {
    let k = (scope.owner(), combo_text(combo));
    if m.contains_key(k) {
        match ActionRef::of_id(m[k]) {
            Some(a) => if a == action {
                None
            } else {
                Some(a)
            },
            None => None,
        }
    } else {
        None
    }
}

/// Binds `combo` to `action` at the given scope. Rejects (returning the
/// action already bound there) if `combo` is already taken by something
/// else in that same scope's *explicit* bindings: callers surface this as
/// a status message rather than silently overwriting.
pub fn set_binding(db: &mut Database, scope: Scope, combo: &KeyCombo, action: ActionRef) -> (r:
    Option<ActionRef>)
    requires
        old(db).wf(),
    ensures
        final(db).wf(),
        r == binding_conflict(old(db).bindings@, scope, combo@, action),
        r is Some ==> *final(db) == *old(db),
        r is None ==> {
            let k = (scope.owner(), combo_text(combo@));
            &&& final(db).same_but_bindings(*old(db))
            &&& final(db).bindings@ == old(db).bindings@.insert(k, action.id_text())
            &&& table::row_views(final(db).bindings.rows()) == table::put_row(
                table::row_views(old(db).bindings.rows()),
                k,
                action.id_text(),
            )
        },
{
    let combo_str = combo.to_text();
    let owner = scope.row_owner();
    match db.bindings.get(owner, combo_str.as_str()) {
        Some(existing) => match ActionRef::from_id(existing.as_str()) {
            Some(other) => {
                if other != action {
                    return Some(other);
                }
            },
            None => {},
        },
        None => {},
    }
    db.bindings.set(owner, combo_str.as_str(), action.to_id().as_str());
    None
}

/// Clears whatever is bound to `combo` at `scope` (default or explicit),
/// so it no longer triggers any action.
pub fn clear_binding(db: &mut Database, scope: Scope, combo: &KeyCombo)
    requires
        old(db).wf(),
    ensures
        final(db).wf(),
        final(db).same_but_bindings(*old(db)),
        final(db).bindings@ == old(db).bindings@.insert(
            (scope.owner(), combo_text(combo@)),
            UNBOUND_SENTINEL@,
        ),
        table::row_views(final(db).bindings.rows()) == table::put_row(
            table::row_views(old(db).bindings.rows()),
            (scope.owner(), combo_text(combo@)),
            UNBOUND_SENTINEL@,
        ),
{
    let combo_str = combo.to_text();
    db.bindings.set(scope.row_owner(), combo_str.as_str(), UNBOUND_SENTINEL);
}

/// Writes a stored binding as it is, over an old one.
pub fn put_binding(db: &mut Database, scope: Scope, combo: &str, action_id: &str)
    requires
        old(db).wf(),
    ensures
        final(db).wf(),
        final(db).same_but_bindings(*old(db)),
        final(db).bindings@ == old(db).bindings@.insert((scope.owner(), combo@), action_id@),
        table::row_views(final(db).bindings.rows()) == table::put_row(
            table::row_views(old(db).bindings.rows()),
            (scope.owner(), combo@),
            action_id@,
        ),
{
    db.bindings.set(scope.row_owner(), combo, action_id);
}

/// The last binding of a combination decides what it triggers; bindings of
/// other combinations do not matter.
pub proof fn law_last_binding_decides(
    m: Map<ComboView, ActionRef>,
    rows: Seq<Row>,
    i: int,
    c: ComboView,
)
    requires
        0 <= i < rows.len(),
        parse_combo(rows[i].key@) == Some(c),
        forall|j: int| i < j < rows.len() ==> parse_combo((#[trigger] rows[j]).key@) != Some(c),
    ensures
        rows[i].value@ == UNBOUND_SENTINEL@ ==> !bound_all(m, rows).contains_key(c),
        rows[i].value@ != UNBOUND_SENTINEL@ ==> (ActionRef::of_id(rows[i].value@) matches Some(a)
            ==> bound_all(m, rows).contains_key(c) && bound_all(m, rows)[c] == a),
    decreases rows.len(),
{
    let front = rows.drop_last();
    if i < front.len() {
        assert(front[i] == rows[i]);
        assert forall|j: int| i < j < front.len() implies parse_combo((#[trigger] front[j]).key@)
            != Some(c) by {
            assert(front[j] == rows[j]);
        }
        law_last_binding_decides(m, front, i, c);
        assert(parse_combo(rows[rows.len() - 1].key@) != Some(c));
    }
}

/// A combination that no binding names keeps what it triggers.
pub proof fn law_unbound_combos_stay(m: Map<ComboView, ActionRef>, rows: Seq<Row>, c: ComboView)
    requires
        forall|j: int| 0 <= j < rows.len() ==> parse_combo((#[trigger] rows[j]).key@) != Some(c),
    ensures
        bound_all(m, rows).contains_key(c) == m.contains_key(c),
        m.contains_key(c) ==> bound_all(m, rows)[c] == m[c],
    decreases rows.len(),
{
    if rows.len() > 0 {
        let front = rows.drop_last();
        assert forall|j: int| 0 <= j < front.len() implies parse_combo((#[trigger] front[j]).key@)
            != Some(c) by {
            assert(front[j] == rows[j]);
        }
        law_unbound_combos_stay(m, front, c);
        assert(parse_combo(rows[rows.len() - 1].key@) != Some(c));
    }
}

/// A user's own binding goes before the shared one, and the shared one before
/// the default.
pub proof fn law_user_over_global_over_default(rows: Seq<Row>, user_id: i64, c: ComboView, i: int)
    requires
        0 <= i < table::owned(rows, Some(user_id)).len(),
        parse_combo(table::owned(rows, Some(user_id))[i].key@) == Some(c),
        forall|j: int|
            i < j < table::owned(rows, Some(user_id)).len() ==> parse_combo(
                (#[trigger] table::owned(rows, Some(user_id))[j]).key@,
            ) != Some(c),
    ensures
        table::owned(rows, Some(user_id))[i].value@ == UNBOUND_SENTINEL@ ==> !effective_shortcuts(
            rows,
            user_id,
        ).contains_key(c),
        table::owned(rows, Some(user_id))[i].value@ != UNBOUND_SENTINEL@ ==> (ActionRef::of_id(
            table::owned(rows, Some(user_id))[i].value@,
        ) matches Some(a) ==> effective_shortcuts(rows, user_id).contains_key(c)
            && effective_shortcuts(rows, user_id)[c] == a),
{
    law_last_binding_decides(
        bound_all(default_map(Action::ALL@), table::owned(rows, None)),
        table::owned(rows, Some(user_id)),
        i,
        c,
    );
}

/// Where a user has no binding of their own, the shared bindings decide, and
/// where there is none either, the default.
pub proof fn law_global_over_default(rows: Seq<Row>, user_id: i64, c: ComboView)
    requires
        forall|j: int|
            0 <= j < table::owned(rows, Some(user_id)).len() ==> parse_combo(
                (#[trigger] table::owned(rows, Some(user_id))[j]).key@,
            ) != Some(c),
    ensures
        ({
            let shared = bound_all(default_map(Action::ALL@), table::owned(rows, None));
            &&& effective_shortcuts(rows, user_id).contains_key(c) == shared.contains_key(c)
            &&& shared.contains_key(c) ==> effective_shortcuts(rows, user_id)[c] == shared[c]
        }),
        (forall|j: int|
            0 <= j < table::owned(rows, None).len() ==> parse_combo(
                (#[trigger] table::owned(rows, None)[j]).key@,
            ) != Some(c)) ==> {
            let defaults = default_map(Action::ALL@);
            &&& effective_shortcuts(rows, user_id).contains_key(c) == defaults.contains_key(c)
            &&& defaults.contains_key(c) ==> effective_shortcuts(rows, user_id)[c] == defaults[c]
        },
{
    let shared = table::owned(rows, None);
    law_unbound_combos_stay(
        bound_all(default_map(Action::ALL@), shared),
        table::owned(rows, Some(user_id)),
        c,
    );
    if forall|j: int| 0 <= j < shared.len() ==> parse_combo((#[trigger] shared[j]).key@) != Some(c) {
        law_unbound_combos_stay(default_map(Action::ALL@), shared, c);
    }
}

/// A binding that was made stands in the way of every other action and of no
/// other scope, and clearing it makes room again.
pub proof fn law_bindings_conflict(
    m: Map<(Option<i64>, Seq<char>), Seq<char>>,
    scope: Scope,
    combo: ComboView,
    first: ActionRef,
    second: ActionRef,
)
    ensures
        ({
            let k = (scope.owner(), combo_text(combo));
            let after = m.insert(k, first.id_text());
            &&& binding_conflict(after, scope, combo, first) is None
            &&& first != second ==> binding_conflict(after, scope, combo, second) == Some(first)
            &&& binding_conflict(m.insert(k, UNBOUND_SENTINEL@), scope, combo, second) is None
        }),
{
    law_action_ref_id_round_trips(first);
    lemma_none_is_no_action();
}

/// Every stored combination is written the way `to_text` writes it.
pub open spec fn canonical_bindings(m: Map<(Option<i64>, Seq<char>), Seq<char>>) -> bool {
    forall|k: (Option<i64>, Seq<char>)| #[trigger]
        m.contains_key(k) ==> (parse_combo(k.1) matches Some(c) ==> k.1 == combo_text(c))
}

/// Binding and clearing keep the stored combinations in their written form.
pub proof fn law_bindings_stay_canonical(
    m: Map<(Option<i64>, Seq<char>), Seq<char>>,
    scope: Scope,
    combo: KeyCombo,
    id: Seq<char>,
)
    requires
        canonical_bindings(m),
        combo.wf(),
    ensures
        canonical_bindings(m.insert((scope.owner(), combo_text(combo@)), id)),
{
    law_combo_round_trips(combo);
}

/// What a user binds takes effect: the combination triggers that action for
/// them, and a combination that they clear triggers nothing.
pub proof fn law_binding_takes_effect(
    bindings: table::TextTable,
    user_id: i64,
    combo: KeyCombo,
    action: ActionRef,
)
    requires
        bindings.wf(),
        canonical_bindings(bindings@),
        combo.wf(),
        bindings@.contains_key((Some(user_id), combo_text(combo@))),
    ensures
        bindings@[(Some(user_id), combo_text(combo@))] == action.id_text() ==> {
            &&& effective_shortcuts(bindings.rows(), user_id).contains_key(combo@)
            &&& effective_shortcuts(bindings.rows(), user_id)[combo@] == action
        },
        bindings@[(Some(user_id), combo_text(combo@))] == UNBOUND_SENTINEL@
            ==> !effective_shortcuts(bindings.rows(), user_id).contains_key(combo@),
{
    let rows = bindings.rows();
    let own = table::owned(rows, Some(user_id));
    let t = combo_text(combo@);
    bindings.lemma_rows();
    table::lemma_owned(rows, Some(user_id));
    table::law_owned_rows(rows, Some(user_id), t);
    law_combo_round_trips(combo);
    let i = choose|i: int| 0 <= i < own.len() && (#[trigger] own[i]).key@ == t;
    assert forall|j: int| i < j < own.len() implies parse_combo((#[trigger] own[j]).key@) != Some(
        combo@,
    ) by {
        assert(bindings@.contains_key((Some(user_id), own[j].key@)));
        assert(own[i].key@ != own[j].key@);
    }
    assert(own[i].value@ == bindings@[(Some(user_id), t)]);
    law_user_over_global_over_default(rows, user_id, combo@, i);
    law_action_ref_id_round_trips(action);
    lemma_none_is_no_action();
}

/// The id that marks a combination as bound to nothing names no action.
proof fn lemma_none_is_no_action()
    ensures
        ActionRef::of_id(UNBOUND_SENTINEL@) is None,
{
    reveal_strlit("none");
    reveal_strlit("custom:");
    assert("none"@.len() == 4 && "custom:"@.len() == 7);
    reveal_strlit("copy");
    reveal_strlit("find");
    if let Some(a) = Action::of_id("none"@) {
        lemma_found_has_id(Action::ALL@, "none"@);
        lemma_id_is_not_none(a);
    }
}

proof fn lemma_found_has_id(all: Seq<Action>, id: Seq<char>)
    ensures
        Action::find_id(all, id) matches Some(a) ==> a.id_text() == id,
    decreases all.len(),
{
    if all.len() > 0 && all[0].id_text() != id {
        lemma_found_has_id(all.subrange(1, all.len() as int), id);
    }
}

proof fn lemma_id_is_not_none(a: Action)
    ensures
        a.id_text() != "none"@,
{
    reveal_strlit("none");
    reveal_strlit("copy");
    reveal_strlit("cut");
    reveal_strlit("paste");
    reveal_strlit("delete");
    reveal_strlit("rename");
    reveal_strlit("new_folder");
    reveal_strlit("new_file");
    reveal_strlit("copy_filename");
    reveal_strlit("copy_folder_path");
    reveal_strlit("extract_here");
    reveal_strlit("extract_to");
    reveal_strlit("toggle_favourite");
    reveal_strlit("go_back");
    reveal_strlit("go_forward");
    reveal_strlit("go_up");
    reveal_strlit("new_tab");
    reveal_strlit("close_tab");
    reveal_strlit("refresh");
    reveal_strlit("find");
    reveal_strlit("toggle_settings");
    reveal_strlit("select_all");
    if a.id_text() == "none"@ {
        assert(a.id_text().len() == 4);
        assert(a.id_text()[0] == 'n');
    }
}

// ---------------------------------------------------------------------------
// Programs for file extensions
// ---------------------------------------------------------------------------

/// An extension as it is stored: without leading dots, in lower case.
pub open spec fn stored_ext(ext: Seq<char>) -> Seq<char> {
    text::lowercase(text::strip_leading(ext, '.'))
}

/// The programs that a user has pinned extensions to, so that opening such a
/// file skips the Windows default-app association, in the order of the
/// extensions. E.g. always launching Excel for `.xlsm`, even if another
/// program (WPS, etc.) currently owns that extension in Windows.
pub fn list_ext_overrides(db: &Database, user_id: i64) -> (r: Vec<Pair>)
    requires
        db.wf(),
    ensures
        table::shows_rows(
            r@,
            sort::sorted(
                table::owned(db.ext_overrides.rows(), Some(user_id)),
                table::key_order(),
            ),
        ),
{
    db.ext_overrides.pairs_by_key(Some(user_id))
}

/// The exe pinned to `ext` for `user_id`, if any.
pub fn get_ext_override(db: &Database, user_id: i64, ext: &str) -> (r: Option<String>)
    requires
        db.wf(),
    ensures
        match r {
            Some(exe) => db.ext_overrides@.contains_key((Some(user_id), text::lowercase(ext@)))
                && exe@ == db.ext_overrides@[(Some(user_id), text::lowercase(ext@))],
            None => !db.ext_overrides@.contains_key((Some(user_id), text::lowercase(ext@))),
        },
{
    db.ext_overrides.get(Some(user_id), to_lowercase(ext).as_str())
}

/// Pins `ext` to always open with `exe_path` for `user_id`.
pub fn set_ext_override(db: &mut Database, user_id: i64, ext: &str, exe_path: &str)
    requires
        old(db).wf(),
    ensures
        final(db).wf(),
        final(db).same_but_overrides(*old(db)),
        final(db).ext_overrides@ == old(db).ext_overrides@.insert(
            (Some(user_id), stored_ext(ext@)),
            exe_path@,
        ),
{
    let bare = trim_start_char(ext, '.');
    let stored = to_lowercase(bare.as_str());
    db.ext_overrides.set(Some(user_id), stored.as_str(), exe_path);
}

/// Writes a stored override as it is, over an old one.
pub fn put_ext_override(db: &mut Database, user_id: i64, ext: &str, exe_path: &str)
    requires
        old(db).wf(),
    ensures
        final(db).wf(),
        final(db).same_but_overrides(*old(db)),
        final(db).ext_overrides@ == old(db).ext_overrides@.insert((Some(user_id), ext@), exe_path@),
{
    db.ext_overrides.set(Some(user_id), ext, exe_path);
}

/// Overrides without the one of `ext`, however it is spelled: neither its stored
/// form nor a row under the very text `ext` is left.
pub open spec fn without_override(
    m: Map<(Option<i64>, Seq<char>), Seq<char>>,
    user_id: i64,
    ext: Seq<char>,
) -> Map<(Option<i64>, Seq<char>), Seq<char>> {
    m.remove((Some(user_id), stored_ext(ext))).remove((Some(user_id), ext))
}

/// Removes `ext`'s override for `user_id`, restoring the Windows default. The
/// extension may be spelled as it was set, or as it is listed.
pub fn remove_ext_override(db: &mut Database, user_id: i64, ext: &str)
    requires
        old(db).wf(),
    ensures
        final(db).wf(),
        final(db).same_but_overrides(*old(db)),
        final(db).ext_overrides@ == without_override(old(db).ext_overrides@, user_id, ext@),
{
    let bare = trim_start_char(ext, '.');
    let stored = to_lowercase(bare.as_str());
    db.ext_overrides.remove(Some(user_id), stored.as_str());
    db.ext_overrides.remove(Some(user_id), ext);
}

/// Removing an override undoes setting it: with whatever spelling of the
/// extension it was set, and with whatever other one of the same stored form it
/// is removed, no override of that extension is left, the user's other
/// extensions are as they were before, and so are everybody else's.
pub proof fn law_removing_undoes_setting(
    m: Map<(Option<i64>, Seq<char>), Seq<char>>,
    user_id: i64,
    set_as: Seq<char>,
    removed_as: Seq<char>,
    exe: Seq<char>,
    other: (Option<i64>, Seq<char>),
)
    requires
        stored_ext(set_as) == stored_ext(removed_as),
    ensures
        ({
            let pinned = m.insert((Some(user_id), stored_ext(set_as)), exe);
            let after = without_override(pinned, user_id, removed_as);
            &&& !after.contains_key((Some(user_id), stored_ext(set_as)))
            &&& !after.contains_key((Some(user_id), removed_as))
            &&& other.0 != Some(user_id) || (other.1 != stored_ext(set_as) && other.1
                != removed_as) ==> {
                &&& after.contains_key(other) == m.contains_key(other)
                &&& m.contains_key(other) ==> after[other] == m[other]
            }
        }),
{
}

/// A removed override is no longer listed.
pub proof fn law_removed_overrides_are_not_listed(
    t: table::TextTable,
    user_id: i64,
    ext: Seq<char>,
    listed: Seq<Pair>,
    i: int,
)
    requires
        t.wf(),
        !t@.contains_key((Some(user_id), stored_ext(ext))),
        !t@.contains_key((Some(user_id), ext)),
        table::shows_rows(
            listed,
            sort::sorted(table::owned(t.rows(), Some(user_id)), table::key_order()),
        ),
        0 <= i < listed.len(),
    ensures
        listed[i].key@ != stored_ext(ext),
        listed[i].key@ != ext,
{
    t.lemma_rows();
    table::lemma_listed(t.rows(), Some(user_id), i);
}

/// An override is found for every spelling of its extension, whatever the
/// case and the leading dot it was set with, and for nobody else.
pub proof fn law_override_ignores_case_and_dot(
    m: Map<(Option<i64>, Seq<char>), Seq<char>>,
    user_id: i64,
    other: i64,
    set_as: Seq<char>,
    asked_as: Seq<char>,
    exe: Seq<char>,
)
    requires
        text::lowercase(asked_as) == text::lowercase(text::strip_leading(set_as, '.')),
        other != user_id,
    ensures
        ({
            let after = m.insert((Some(user_id), stored_ext(set_as)), exe);
            let asked = text::lowercase(asked_as);
            &&& after.contains_key((Some(user_id), asked))
            &&& after[(Some(user_id), asked)] == exe
            &&& after.contains_key((Some(other), asked)) == m.contains_key((Some(other), asked))
        }),
{
}

// ---------------------------------------------------------------------------
// What users see of each other
// ---------------------------------------------------------------------------

proof fn lemma_visible_customs(
    rows: Seq<CustomRow>,
    user_id: i64,
    p: spec_fn(CustomRow) -> bool,
)
    requires
        forall|row: CustomRow| #[trigger]
            p(row) == (row.owner is None || row.owner == Some(user_id)),
    ensures
        visible_customs(rows, user_id) == rows.filter(p),
    decreases rows.len(),
{
    reveal(Seq::filter);
    if rows.len() > 0 {
        lemma_visible_customs(rows.drop_last(), user_id, p);
    }
}

proof fn lemma_customs_without_filters(
    rows: Seq<CustomRow>,
    id: i64,
    p: spec_fn(CustomRow) -> bool,
)
    requires
        forall|row: CustomRow| #[trigger] p(row) == (row.id != id),
    ensures
        customs_without(rows, id) == rows.filter(p),
    decreases rows.len(),
{
    reveal(Seq::filter);
    if rows.len() > 0 {
        lemma_customs_without_filters(rows.drop_last(), id, p);
    }
}

/// A user sees exactly the custom actions that are shared or their own, in their
/// order, each with its id, label and program.
pub proof fn law_users_see_their_custom_actions(
    db: &Database,
    user_id: i64,
    r: Vec<CustomAction>,
    i: int,
)
    requires
        call_ensures(list_custom_actions, (db, user_id), r),
    ensures
        ({
            let seen = db.custom_actions@.filter(
                |row: CustomRow| row.owner is None || row.owner == Some(user_id),
            );
            &&& r@.len() == seen.len()
            &&& 0 <= i < r@.len() ==> r@[i].id == seen[i].id && r@[i].label@ == seen[i].label@
                && r@[i].exe_path@ == seen[i].exe_path@
        }),
{
    lemma_visible_customs(
        db.custom_actions@,
        user_id,
        |row: CustomRow| row.owner is None || row.owner == Some(user_id),
    );
}

/// A new custom action comes behind the others, belongs to the user who made it,
/// and gets an id that no action ever had. Removing one leaves all others.
/// Neither touches anything else.
pub proof fn law_custom_actions_come_and_go()
    ensures
        forall|db: &mut Database, user: i64, label: &str, exe: &str, r: Result<i64, DbError>|
            #[trigger]
            call_ensures(add_custom_action, (db, user, label, exe), r) ==> {
                &&& r is Err ==> *final(db) == *db
                &&& r is Ok ==> {
                    let new = final(db).custom_actions@.last();
                    &&& final(db).custom_actions@ == db.custom_actions@ + seq![new]
                    &&& new.id == r->Ok_0 && new.id > db.last_custom_id
                    &&& new.label@ == label@ && new.exe_path@ == exe@
                    &&& new.owner == Some(user)
                    &&& final(db).bindings == db.bindings && final(db).toolbars == db.toolbars
                    &&& final(db).settings == db.settings
                }
            },
        forall|db: &mut Database, id: i64| #[trigger]
            call_ensures(remove_custom_action, (db, id), ()) ==> {
                &&& final(db).custom_actions@ == db.custom_actions@.filter(
                    |row: CustomRow| row.id != id,
                )
                &&& final(db).last_custom_id == db.last_custom_id
                &&& final(db).bindings == db.bindings && final(db).toolbars == db.toolbars
                &&& final(db).settings == db.settings
            },
{
    assert forall|db: &mut Database, user: i64, label: &str, exe: &str, r: Result<i64, DbError>|
        #[trigger]
        call_ensures(add_custom_action, (db, user, label, exe), r) && r is Ok implies final(
        db
    ).custom_actions@ == db.custom_actions@ + seq![final(db).custom_actions@.last()] by {
        let now = final(db).custom_actions@;
        assert(now.drop_last() + seq![now.last()] =~= now);
    }
    assert forall|db: &mut Database, id: i64| #[trigger]
        call_ensures(remove_custom_action, (db, id), ()) implies final(db).custom_actions@
        == db.custom_actions@.filter(|row: CustomRow| row.id != id) by {
        lemma_customs_without_filters(db.custom_actions@, id, |row: CustomRow| row.id != id);
    }
}

/// A toolbar that is stored is what its owner gets, with every button in its
/// order. A user without buttons of their own gets the shared toolbar. Storing
/// one changes no other.
pub proof fn law_toolbars_are_kept()
    ensures
        forall|db: &mut Database, scope: Scope, actions: &Vec<ActionRef>, user: i64|
            #![trigger call_ensures(set_layout, (db, scope, actions), ()), effective_toolbar(final(db).toolbars@, user)]
            call_ensures(set_layout, (db, scope, actions), ()) ==> {
                &&& scope == Scope::User(user) && actions@.len() > 0 ==> effective_toolbar(
                    final(db).toolbars@,
                    user,
                ) == actions@
                &&& scope is Global && known_actions(
                    layout_ids(db.toolbars@, Some(user)),
                ).len() == 0 ==> effective_toolbar(final(db).toolbars@, user) == actions@
                &&& scope is Global && known_actions(
                    layout_ids(db.toolbars@, Some(user)),
                ).len() > 0 ==> effective_toolbar(final(db).toolbars@, user)
                    == effective_toolbar(db.toolbars@, user)
                &&& scope is User && scope != Scope::User(user) ==> effective_toolbar(
                    final(db).toolbars@,
                    user,
                ) == effective_toolbar(db.toolbars@, user)
                &&& final(db).bindings == db.bindings && final(db).settings == db.settings
                &&& final(db).custom_actions == db.custom_actions
            },
        forall|db: &Database, user: i64, r: Vec<ActionRef>| #[trigger]
            call_ensures(load_toolbar, (db, user), r) ==> r@ == effective_toolbar(
                db.toolbars@,
                user,
            ),
        forall|db: &mut Database| #[trigger]
            call_ensures(init_tables, (db,), ()) && layout_ids(db.toolbars@, None).len() > 0
                ==> final(db).toolbars == db.toolbars,
{
    assert forall|a: Seq<ActionRef>| known_actions(#[trigger] action_ids(a)) == a by {
        law_layout_round_trips(a);
    }
    assert forall|db: &mut Database, scope: Scope, actions: &Vec<ActionRef>, user: i64|
        #![trigger call_ensures(set_layout, (db, scope, actions), ()), effective_toolbar(final(db).toolbars@, user)]
        call_ensures(set_layout, (db, scope, actions), ()) implies {
        &&& scope == Scope::User(user) && actions@.len() > 0 ==> effective_toolbar(
            final(db).toolbars@,
            user,
        ) == actions@
        &&& scope is Global && known_actions(layout_ids(db.toolbars@, Some(user))).len() == 0
            ==> effective_toolbar(final(db).toolbars@, user) == actions@
        &&& scope is Global && known_actions(layout_ids(db.toolbars@, Some(user))).len() > 0
            ==> effective_toolbar(final(db).toolbars@, user) == effective_toolbar(
            db.toolbars@,
            user,
        )
        &&& scope is User && scope != Scope::User(user) ==> effective_toolbar(
            final(db).toolbars@,
            user,
        ) == effective_toolbar(db.toolbars@, user)
    } by {
        assert(known_actions(action_ids(actions@)) == actions@);
        assert(layout_ids(final(db).toolbars@, scope.owner()) == action_ids(actions@));
        if scope != Scope::User(user) {
            assert(layout_ids(final(db).toolbars@, Some(user)) == layout_ids(
                db.toolbars@,
                Some(user),
            ));
        }
        if scope !is Global {
            assert(layout_ids(final(db).toolbars@, None) == layout_ids(db.toolbars@, None));
        }
    }
}

/// Pinning an extension makes files with it open with that program for that
/// user, however its case is written, and changes no other extension and no
/// other user.
pub proof fn law_pinned_programs_are_found()
    ensures
        forall|db: &mut Database, user: i64, ext: &str, exe: &str, u: i64, e: &str, r: Option<
            String,
        >|
            #![trigger call_ensures(set_ext_override, (db, user, ext, exe), ()), call_ensures(get_ext_override, (&*final(db), u, e), r)]
            call_ensures(set_ext_override, (db, user, ext, exe), ()) && call_ensures(
                get_ext_override,
                (&*final(db), u, e),
                r,
            ) ==> {
                let k = text::lowercase(text::strip_leading(ext@, '.'));
                &&& u == user && text::lowercase(e@) == k ==> r is Some && r->0@ == exe@
                &&& u != user || text::lowercase(e@) != k ==> {
                    &&& r is Some <==> db.ext_overrides@.contains_key(
                        (Some(u), text::lowercase(e@)),
                    )
                    &&& r is Some ==> r->0@ == db.ext_overrides@[(Some(u), text::lowercase(e@))]
                }
            },
{
}

/// Binding keys is refused exactly where another action is bound to them in the
/// same scope, which is then told, and nothing changes. Else they are bound
/// there, and no other binding changes.
pub proof fn law_bindings_overwrite_nothing()
    ensures
        forall|db: &mut Database, scope: Scope, combo: &KeyCombo, action: ActionRef, r: Option<
            ActionRef,
        >| #[trigger]
            call_ensures(set_binding, (db, scope, combo, action), r) ==> {
                let k = (scope.owner(), combo_text(combo@));
                &&& r is Some ==> *final(db) == *db && db.bindings@.contains_key(k) && r
                    == ActionRef::of_id(db.bindings@[k]) && r != Some(action)
                &&& db.bindings@.contains_key(k) && ActionRef::of_id(db.bindings@[k]) is Some
                    && ActionRef::of_id(db.bindings@[k]) != Some(action) ==> r is Some
                &&& r is None ==> final(db).bindings@.contains_key(k) && ActionRef::of_id(
                    final(db).bindings@[k],
                ) == Some(action)
                &&& r is None ==> forall|other: (Option<i64>, Seq<char>)|
                    other != k ==> #[trigger] final(db).bindings@.contains_key(other)
                        == db.bindings@.contains_key(other) && (db.bindings@.contains_key(other)
                        ==> final(db).bindings@[other] == db.bindings@[other])
                &&& final(db).settings == db.settings && final(db).toolbars == db.toolbars
            },
        forall|db: &mut Database, scope: Scope, combo: &KeyCombo| #[trigger]
            call_ensures(clear_binding, (db, scope, combo), ()) ==> {
                let k = (scope.owner(), combo_text(combo@));
                &&& final(db).bindings@.contains_key(k) && ActionRef::of_id(
                    final(db).bindings@[k],
                ) is None
                &&& forall|other: (Option<i64>, Seq<char>)|
                    other != k ==> #[trigger] final(db).bindings@.contains_key(other)
                        == db.bindings@.contains_key(other) && (db.bindings@.contains_key(other)
                        ==> final(db).bindings@[other] == db.bindings@[other])
                &&& final(db).settings == db.settings && final(db).toolbars == db.toolbars
            },
{
    lemma_none_is_no_action();
    assert forall|a: ActionRef| ActionRef::of_id(#[trigger] a.id_text()) == Some(a) by {
        law_action_ref_id_round_trips(a);
    }
}

proof fn lemma_with_combos(
    m: Map<ComboView, ActionRef>,
    combos: Seq<ComboView>,
    action: Action,
    c: ComboView,
)
    ensures
        combos.contains(c) ==> with_combos(m, combos, action).contains_key(c) && with_combos(
            m,
            combos,
            action,
        )[c] == ActionRef::Builtin(action),
        !combos.contains(c) ==> with_combos(m, combos, action).contains_key(c) == m.contains_key(c)
            && (m.contains_key(c) ==> with_combos(m, combos, action)[c] == m[c]),
    decreases combos.len(),
{
    if combos.len() > 0 {
        let front = combos.drop_last();
        lemma_with_combos(m, front, action, c);
        if combos.contains(c) && combos.last() != c {
            let i = choose|i: int| 0 <= i < combos.len() && combos[i] == c;
            assert(front[i] == c);
        }
        if !combos.contains(c) {
            assert(combos.last() == combos[combos.len() - 1]);
            assert forall|i: int| 0 <= i < front.len() implies front[i] != c by {
                assert(front[i] == combos[i]);
            }
        }
    }
}

proof fn lemma_default_map(actions: Seq<Action>, c: ComboView)
    ensures
        default_map(actions).contains_key(c) ==> exists|i: int|
            0 <= i < actions.len() && (#[trigger] actions[i]).default_combos().contains(c)
                && default_map(actions)[c] == ActionRef::Builtin(actions[i]),
        (exists|i: int| 0 <= i < actions.len() && (#[trigger] actions[i]).default_combos().contains(c))
            ==> default_map(actions).contains_key(c),
    decreases actions.len(),
{
    if actions.len() > 0 {
        let front = actions.drop_last();
        let last = actions.last();
        lemma_default_map(front, c);
        lemma_with_combos(default_map(front), last.default_combos(), last, c);
        assert(last == actions[actions.len() - 1]);
        if last.default_combos().contains(c) {
            assert(actions[actions.len() - 1].default_combos().contains(c));
        } else {
            if default_map(front).contains_key(c) {
                let i = choose|i: int|
                    0 <= i < front.len() && (#[trigger] front[i]).default_combos().contains(c)
                        && default_map(front)[c] == ActionRef::Builtin(front[i]);
                assert(actions[i] == front[i]);
            }
            if exists|i: int|
                0 <= i < actions.len() && (#[trigger] actions[i]).default_combos().contains(c) {
                let i = choose|i: int|
                    0 <= i < actions.len() && (#[trigger] actions[i]).default_combos().contains(c);
                assert(front[i] == actions[i]);
            }
        }
    }
}

/// Before anybody binds keys, every default combination of an action triggers an
/// action that has it as a default, and no other combination triggers any.
pub proof fn law_defaults_apply_without_bindings(user_id: i64, c: ComboView)
    ensures
        effective_shortcuts(Seq::empty(), user_id).contains_key(c) <==> exists|a: Action|
            (#[trigger] a.default_combos()).contains(c),
        effective_shortcuts(Seq::empty(), user_id).contains_key(c) ==> exists|a: Action|
            (#[trigger] a.default_combos()).contains(c) && effective_shortcuts(
                Seq::empty(),
                user_id,
            )[c] == ActionRef::Builtin(a),
{
    let all = Action::ALL@;
    lemma_default_map(all, c);
    assert(table::owned(Seq::empty(), None) =~= Seq::<Row>::empty());
    assert(table::owned(Seq::empty(), Some(user_id)) =~= Seq::<Row>::empty());
    assert(effective_shortcuts(Seq::empty(), user_id) == default_map(all));
    if exists|a: Action| (#[trigger] a.default_combos()).contains(c) {
        let a = choose|a: Action| (#[trigger] a.default_combos()).contains(c);
        lemma_all_actions(a);
        let i = choose|i: int| 0 <= i < all.len() && all[i] == a;
        assert(all[i].default_combos().contains(c));
    }
    if default_map(all).contains_key(c) {
        let i = choose|i: int|
            0 <= i < all.len() && (#[trigger] all[i]).default_combos().contains(c)
                && default_map(all)[c] == ActionRef::Builtin(all[i]);
        let a = all[i];
        assert(a.default_combos().contains(c));
    }
}

/// A combination is pressed where its key goes down while its modifiers are
/// held, and no other modifier is.
pub proof fn law_combinations_need_their_modifiers(c: KeyCombo, i: &KeyInput, r: bool)
    requires
        call_ensures(KeyCombo::matches_input, (&c, i), r),
    ensures
        r ==> i.ctrl == c.ctrl && i.shift == c.shift && i.alt == c.alt,
        r ==> exists|j: int| 0 <= j < i.pressed@.len() && (#[trigger] i.pressed@[j])@ == c.key@,
        i.ctrl == c.ctrl && i.shift == c.shift && i.alt == c.alt && (exists|j: int|
            0 <= j < i.pressed@.len() && (#[trigger] i.pressed@[j])@ == c.key@) ==> r,
{
    let t = text::texts(i.pressed@);
    if r {
        let j = choose|j: int| 0 <= j < t.len() && t[j] == c.key@;
        assert(i.pressed@[j]@ == c.key@);
    }
    if exists|j: int| 0 <= j < i.pressed@.len() && (#[trigger] i.pressed@[j])@ == c.key@ {
        let j = choose|j: int| 0 <= j < i.pressed@.len() && (#[trigger] i.pressed@[j])@ == c.key@;
        assert(t[j] == c.key@);
    }
}

} // verus!
