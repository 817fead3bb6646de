use crate::text::{chars_of, into_string, push_str, lemma_least_in_bounds, lemma_least_in_found, lemma_least_in_none, least_in};
use vstd::prelude::*;

verus! {

/// The Shift bit of a GDK modifier state.
pub const SHIFT_MASK: u32 = 1;

/// The Control bit of a GDK modifier state.
pub const CONTROL_MASK: u32 = 4;

/// The Alt bit of a GDK modifier state.
pub const ALT_MASK: u32 = 8;

/// What a keyboard shortcut asks the editor to do.
#[derive(Debug, Clone, Copy, PartialEq, Eq, Hash, Structural)]
pub enum Action {
    Save,
    SaveAs,
    New,
    Open,
    Close,
    Quit,
    Undo,
    Redo,
    TogglePreview,
    Search,
    Replace,
    FormatBold,
    FormatItalic,
    FormatLink,
    FormatStrikethrough,
    FormatHeading,
    FormatBulletList,
    FormatNumberedList,
    FormatCode,
    FormatBlockquote,
    Indent,
    Unindent,
    ZoomIn,
    ZoomOut,
    ZoomReset,
    ToggleConceal,
    ToggleWrapMode,
}

/// A key with modifiers. Keys are GDK key values; `key_lower` is the lower-case
/// key value of `key`, by which a binding also matches.
#[derive(Debug, Clone, Copy, PartialEq, Eq, Hash, Structural)]
pub struct KeyBinding {
    pub key: u32,
    pub key_lower: u32,
    pub ctrl: bool,
    pub shift: bool,
    pub alt: bool,
}

/// A key press matches a binding when its key or its lower-case key is the
/// binding's, and exactly the binding's Control, Shift and Alt are held.
pub open spec fn binding_matches(b: KeyBinding, keyval: u32, keyval_lower: u32, modifier_state: u32) -> bool {
    &&& (b.key == keyval || b.key_lower == keyval_lower)
    &&& b.ctrl == (modifier_state & CONTROL_MASK != 0)
    &&& b.shift == (modifier_state & SHIFT_MASK != 0)
    &&& b.alt == (modifier_state & ALT_MASK != 0)
}

/// Two bindings are the same shortcut: same key and same modifiers.
pub open spec fn same_binding(a: KeyBinding, b: KeyBinding) -> bool {
    a.key == b.key && a.ctrl == b.ctrl && a.shift == b.shift && a.alt == b.alt
}

impl KeyBinding {
    pub fn new(key: u32, key_lower: u32, ctrl: bool, shift: bool, alt: bool) -> (b: Self)
        ensures
            b == (KeyBinding { key, key_lower, ctrl, shift, alt }),
    {
        Self { key, key_lower, ctrl, shift, alt }
    }

    pub fn matches(&self, keyval: u32, keyval_lower: u32, modifier_state: u32) -> (r: bool)
        ensures
            r == binding_matches(*self, keyval, keyval_lower, modifier_state),
    {
        let has_ctrl = modifier_state & CONTROL_MASK != 0;
        let has_shift = modifier_state & SHIFT_MASK != 0;
        let has_alt = modifier_state & ALT_MASK != 0;
        let key_match = self.key == keyval || self.key_lower == keyval_lower;
        key_match && self.ctrl == has_ctrl && self.shift == has_shift && self.alt == has_alt
    }
}

/// The position of the shortcut `b` in a table, if it is bound.
pub open spec fn position_of(t: Seq<(KeyBinding, Action)>, b: KeyBinding) -> Option<int> {
    least_in(0, t.len() as int, |i: int| same_binding(t[i].0, b))
}

/// The table after binding `b` to `a`: a bound shortcut gets the new action, a new
/// one is added at the end.
pub open spec fn bind_in(t: Seq<(KeyBinding, Action)>, b: KeyBinding, a: Action) -> Seq<(KeyBinding, Action)> {
    match position_of(t, b) {
        Some(i) => t.update(i, (t[i].0, a)),
        None => t.push((b, a)),
    }
}

/// Binding each entry of `ds` in turn.
pub open spec fn bind_all(t: Seq<(KeyBinding, Action)>, ds: Seq<(KeyBinding, Action)>) -> Seq<(KeyBinding, Action)>
    decreases ds.len(),
{
    if ds.len() == 0 {
        t
    } else {
        let prev = bind_all(t, ds.drop_last());
        bind_in(prev, ds.last().0, ds.last().1)
    }
}

/// The action of the first binding in the table that the key press matches.
pub open spec fn action_for(t: Seq<(KeyBinding, Action)>, keyval: u32, keyval_lower: u32, modifier_state: u32) -> Option<Action> {
    match least_in(0, t.len() as int, |i: int| binding_matches(t[i].0, keyval, keyval_lower, modifier_state)) {
        Some(i) => Some(t[i].1),
        None => None,
    }
}

/// No shortcut is bound twice.
pub open spec fn distinct_bindings(t: Seq<(KeyBinding, Action)>) -> bool {
    forall|i: int, j: int| 0 <= i < t.len() && 0 <= j < t.len() && i != j ==> !same_binding(#[trigger] t[i].0, #[trigger] t[j].0)
}

/// The table of shortcuts.
pub struct ShortcutManager {
    bindings: Vec<(KeyBinding, Action)>,
}

impl View for ShortcutManager {
    type V = Seq<(KeyBinding, Action)>;

    closed spec fn view(&self) -> Seq<(KeyBinding, Action)> {
        self.bindings@
    }
}

impl ShortcutManager {
    #[verifier::type_invariant]
    spec fn inv(self) -> bool {
        distinct_bindings(self.bindings@)
    }

    /// A table holding the default shortcuts.
    pub fn new() -> (m: Self)
        ensures
            m@ == bind_all(seq![], default_bindings()),
    {
        let mut m = Self { bindings: Vec::new() };
        m.register_defaults();
        m
    }

    fn position(&self, b: KeyBinding) -> (r: Option<usize>)
        ensures
            r matches Some(i) ==> position_of(self@, b) == Some(i as int) && i < self@.len(),
            r is None ==> position_of(self@, b) is None,
            r is None ==> forall|k: int| 0 <= k < self@.len() ==> !same_binding(#[trigger] self@[k].0, b),
    {
        let ghost t = self.bindings@;
        let ghost p = |i: int| same_binding(t[i].0, b);
        let mut i: usize = 0;
        while i < self.bindings.len()
            invariant
                i <= self.bindings.len(),
                t == self.bindings@,
                p == (|i: int| same_binding(t[i].0, b)),
                forall|k: int| 0 <= k < i ==> !#[trigger] p(k),
            decreases self.bindings.len() - i,
        {
            let e = self.bindings[i].0;
            if e.key == b.key && e.ctrl == b.ctrl && e.shift == b.shift && e.alt == b.alt {
                proof {
                    lemma_least_in_found(0, t.len() as int, p, i as int);
                }
                return Some(i);
            }
            i += 1;
        }
        proof {
            lemma_least_in_none(0, t.len() as int, p);
            assert forall|k: int| 0 <= k < t.len() implies !same_binding(#[trigger] t[k].0, b) by {
                assert(!p(k));
            }
        }
        None
    }

    /// Binds `key` with the given modifiers to `action`, replacing its former action.
    pub fn bind(&mut self, key: u32, key_lower: u32, ctrl: bool, shift: bool, alt: bool, action: Action)
        ensures
            final(self)@ == bind_in(old(self)@, KeyBinding { key, key_lower, ctrl, shift, alt }, action),
    {
        proof {
            use_type_invariant(&*self);
        }
        let binding = KeyBinding::new(key, key_lower, ctrl, shift, alt);
        let ghost t = self.bindings@;
        let found = self.position(binding);
        let mut entries: Vec<(KeyBinding, Action)> = Vec::new();
        std::mem::swap(&mut entries, &mut self.bindings);
        match found {
            Some(i) => {
                let kept = entries[i].0;
                entries.set(i, (kept, action));
                assert(entries@ == t.update(i as int, (t[i as int].0, action)));
                assert forall|x: int, y: int| 0 <= x < entries@.len() && 0 <= y < entries@.len() && x != y implies !same_binding(#[trigger] entries@[x].0, #[trigger] entries@[y].0) by {
                    assert(entries@[x].0 == t[x].0 && entries@[y].0 == t[y].0);
                }
            },
            None => {
                entries.push((binding, action));
                proof {
                    assert forall|x: int, y: int| 0 <= x < entries@.len() && 0 <= y < entries@.len() && x != y implies !same_binding(#[trigger] entries@[x].0, #[trigger] entries@[y].0) by {
                        if x == t.len() {
                            assert(!same_binding(t[y].0, binding));
                            assert(entries@[x].0 == binding && entries@[y].0 == t[y].0);
                        } else if y == t.len() {
                            assert(!same_binding(t[x].0, binding));
                            assert(entries@[y].0 == binding && entries@[x].0 == t[x].0);
                        } else {
                            assert(entries@[x].0 == t[x].0 && entries@[y].0 == t[y].0);
                        }
                    }
                }
            },
        }
        self.bindings = entries;
    }

    /// Binds the default shortcuts in turn.
    pub fn register_defaults(&mut self)
        ensures
            final(self)@ == bind_all(old(self)@, default_bindings()),
    {
        let defaults = default_binding_table();
        let ghost t0 = self@;
        let mut k: usize = 0;
        while k < defaults.len()
            invariant
                k <= defaults.len(),
                defaults@ == default_bindings(),
                self@ == bind_all(t0, defaults@.take(k as int)),
            decreases defaults.len() - k,
        {
            let (b, a) = defaults[k];
            self.bind(b.key, b.key_lower, b.ctrl, b.shift, b.alt, a);
            assert(defaults@.take(k + 1).drop_last() =~= defaults@.take(k as int));
            k += 1;
        }
        assert(defaults@.take(defaults.len() as int) =~= defaults@);
    }

    /// The action bound to a key press: the first binding of the table that it
    /// matches, if any.
    pub fn match_action(&self, keyval: u32, keyval_lower: u32, modifier_state: u32) -> (r: Option<Action>)
        ensures
            r == action_for(self@, keyval, keyval_lower, modifier_state),
    {
        let ghost t = self.bindings@;
        let ghost p = |i: int| binding_matches(t[i].0, keyval, keyval_lower, modifier_state);
        let mut i: usize = 0;
        while i < self.bindings.len()
            invariant
                i <= self.bindings.len(),
                t == self.bindings@,
                p == (|i: int| binding_matches(t[i].0, keyval, keyval_lower, modifier_state)),
                forall|k: int| 0 <= k < i ==> !#[trigger] p(k),
            decreases self.bindings.len() - i,
        {
            let (binding, action) = self.bindings[i];
            if binding.matches(keyval, keyval_lower, modifier_state) {
                proof {
                    lemma_least_in_found(0, t.len() as int, p, i as int);
                }
                return Some(action);
            }
            i += 1;
        }
        proof {
            lemma_least_in_none(0, t.len() as int, p);
        }
        None
    }

    /// Messages for shortcuts bound twice; a table never holds any.
    pub fn check_conflicts(&self) -> (r: Vec<String>)
        ensures
            r@.len() == 0,
    {
        proof {
            use_type_invariant(self);
        }
        let mut conflicts: Vec<String> = Vec::new();
        let mut i: usize = 0;
        while i < self.bindings.len()
            invariant
                i <= self.bindings.len(),
                distinct_bindings(self.bindings@),
                conflicts@.len() == 0,
            decreases self.bindings.len() - i,
        {
            let b = self.bindings[i].0;
            let action = self.bindings[i].1;
            let mut j: usize = 0;
            while j < i
                invariant
                    j <= i < self.bindings.len(),
                    b == self.bindings@[i as int].0,
                    distinct_bindings(self.bindings@),
                    conflicts@.len() == 0,
                decreases i - j,
            {
                let prev = self.bindings[j].0;
                let prev_action = self.bindings[j].1;
                if prev.key == b.key && prev.ctrl == b.ctrl && prev.shift == b.shift && prev.alt == b.alt {
                    assert(same_binding(self.bindings@[j as int].0, self.bindings@[i as int].0));
                    conflicts.push(conflict_message(prev_action, action));
                }
                j += 1;
            }
            i += 1;
        }
        conflicts
    }
}

impl Default for ShortcutManager {
    fn default() -> (m: Self)
        ensures
            m@ == bind_all(seq![], default_bindings()),
    {
        Self::new()
    }
}


// ---------------------------------------------------------------------------
// Defaults
// ---------------------------------------------------------------------------

pub const KEY_S_LOWER: u32 = 0x0073;

pub const KEY_S: u32 = 0x0053;

pub const KEY_N_LOWER: u32 = 0x006e;

pub const KEY_O_LOWER: u32 = 0x006f;

pub const KEY_W_LOWER: u32 = 0x0077;

pub const KEY_Q_LOWER: u32 = 0x0071;

pub const KEY_Q: u32 = 0x0051;

pub const KEY_Z_LOWER: u32 = 0x007a;

pub const KEY_Z: u32 = 0x005a;

pub const KEY_E_LOWER: u32 = 0x0065;

pub const KEY_L_LOWER: u32 = 0x006c;

pub const KEY_F_LOWER: u32 = 0x0066;

pub const KEY_H_LOWER: u32 = 0x0068;

pub const KEY_H: u32 = 0x0048;

pub const KEY_B_LOWER: u32 = 0x0062;

pub const KEY_I_LOWER: u32 = 0x0069;

pub const KEY_K_LOWER: u32 = 0x006b;

pub const KEY_X_LOWER: u32 = 0x0078;

pub const KEY_X: u32 = 0x0058;

pub const KEY_C_LOWER: u32 = 0x0063;

pub const KEY_C: u32 = 0x0043;

pub const KEY_8: u32 = 0x0038;

pub const KEY_ASTERISK: u32 = 0x002a;

pub const KEY_7: u32 = 0x0037;

pub const KEY_AMPERSAND: u32 = 0x0026;

pub const KEY_TAB: u32 = 0xff09;

pub const KEY_ISO_LEFT_TAB: u32 = 0xfe20;

pub const KEY_PLUS: u32 = 0x002b;

pub const KEY_EQUAL: u32 = 0x003d;

pub const KEY_MINUS: u32 = 0x002d;

pub const KEY_0: u32 = 0x0030;

pub open spec fn key_binding(key: u32, key_lower: u32, ctrl: bool, shift: bool, alt: bool) -> KeyBinding {
    KeyBinding { key, key_lower, ctrl, shift, alt }
}

/// The default shortcuts, in the order they are bound.
pub open spec fn default_bindings() -> Seq<(KeyBinding, Action)> {
    seq![
        (key_binding(KEY_S_LOWER, KEY_S_LOWER, true, false, false), Action::Save),
        (key_binding(KEY_S, KEY_S_LOWER, true, true, false), Action::SaveAs),
        (key_binding(KEY_N_LOWER, KEY_N_LOWER, true, false, false), Action::New),
        (key_binding(KEY_O_LOWER, KEY_O_LOWER, true, false, false), Action::Open),
        (key_binding(KEY_W_LOWER, KEY_W_LOWER, true, false, false), Action::Close),
        (key_binding(KEY_Q_LOWER, KEY_Q_LOWER, true, false, false), Action::Quit),
        (key_binding(KEY_Z_LOWER, KEY_Z_LOWER, true, false, false), Action::Undo),
        (key_binding(KEY_Z, KEY_Z_LOWER, true, true, false), Action::Redo),
        (key_binding(KEY_E_LOWER, KEY_E_LOWER, true, false, false), Action::TogglePreview),
        (key_binding(KEY_L_LOWER, KEY_L_LOWER, true, false, false), Action::ToggleConceal),
        (key_binding(KEY_Z_LOWER, KEY_Z_LOWER, false, false, true), Action::ToggleWrapMode),
        (key_binding(KEY_F_LOWER, KEY_F_LOWER, true, false, false), Action::Search),
        (key_binding(KEY_H_LOWER, KEY_H_LOWER, true, false, false), Action::Replace),
        (key_binding(KEY_B_LOWER, KEY_B_LOWER, true, false, false), Action::FormatBold),
        (key_binding(KEY_I_LOWER, KEY_I_LOWER, true, false, false), Action::FormatItalic),
        (key_binding(KEY_K_LOWER, KEY_K_LOWER, true, false, false), Action::FormatLink),
        (key_binding(KEY_X, KEY_X_LOWER, true, true, false), Action::FormatStrikethrough),
        (key_binding(KEY_X_LOWER, KEY_X_LOWER, true, true, false), Action::FormatStrikethrough),
        (key_binding(KEY_H, KEY_H_LOWER, true, true, false), Action::FormatHeading),
        (key_binding(KEY_C, KEY_C_LOWER, true, true, false), Action::FormatCode),
        (key_binding(KEY_C_LOWER, KEY_C_LOWER, true, true, false), Action::FormatCode),
        (key_binding(KEY_Q, KEY_Q_LOWER, true, true, false), Action::FormatBlockquote),
        (key_binding(KEY_Q_LOWER, KEY_Q_LOWER, true, true, false), Action::FormatBlockquote),
        (key_binding(KEY_8, KEY_8, true, true, false), Action::FormatBulletList),
        (key_binding(KEY_ASTERISK, KEY_ASTERISK, true, true, false), Action::FormatBulletList),
        (key_binding(KEY_7, KEY_7, true, true, false), Action::FormatNumberedList),
        (key_binding(KEY_AMPERSAND, KEY_AMPERSAND, true, true, false), Action::FormatNumberedList),
        (key_binding(KEY_TAB, KEY_TAB, false, false, false), Action::Indent),
        (key_binding(KEY_ISO_LEFT_TAB, KEY_ISO_LEFT_TAB, false, true, false), Action::Unindent),
        (key_binding(KEY_TAB, KEY_TAB, false, true, false), Action::Unindent),
        (key_binding(KEY_PLUS, KEY_PLUS, true, false, false), Action::ZoomIn),
        (key_binding(KEY_EQUAL, KEY_EQUAL, true, false, false), Action::ZoomIn),
        (key_binding(KEY_MINUS, KEY_MINUS, true, false, false), Action::ZoomOut),
        (key_binding(KEY_0, KEY_0, true, false, false), Action::ZoomReset),
    ]
}

fn default_binding_table() -> (r: Vec<(KeyBinding, Action)>)
    ensures
        r@ == default_bindings(),
{
    let r = vec![
        (KeyBinding { key: KEY_S_LOWER, key_lower: KEY_S_LOWER, ctrl: true, shift: false, alt: false }, Action::Save),
        (KeyBinding { key: KEY_S, key_lower: KEY_S_LOWER, ctrl: true, shift: true, alt: false }, Action::SaveAs),
        (KeyBinding { key: KEY_N_LOWER, key_lower: KEY_N_LOWER, ctrl: true, shift: false, alt: false }, Action::New),
        (KeyBinding { key: KEY_O_LOWER, key_lower: KEY_O_LOWER, ctrl: true, shift: false, alt: false }, Action::Open),
        (KeyBinding { key: KEY_W_LOWER, key_lower: KEY_W_LOWER, ctrl: true, shift: false, alt: false }, Action::Close),
        (KeyBinding { key: KEY_Q_LOWER, key_lower: KEY_Q_LOWER, ctrl: true, shift: false, alt: false }, Action::Quit),
        (KeyBinding { key: KEY_Z_LOWER, key_lower: KEY_Z_LOWER, ctrl: true, shift: false, alt: false }, Action::Undo),
        (KeyBinding { key: KEY_Z, key_lower: KEY_Z_LOWER, ctrl: true, shift: true, alt: false }, Action::Redo),
        (KeyBinding { key: KEY_E_LOWER, key_lower: KEY_E_LOWER, ctrl: true, shift: false, alt: false }, Action::TogglePreview),
        (KeyBinding { key: KEY_L_LOWER, key_lower: KEY_L_LOWER, ctrl: true, shift: false, alt: false }, Action::ToggleConceal),
        (KeyBinding { key: KEY_Z_LOWER, key_lower: KEY_Z_LOWER, ctrl: false, shift: false, alt: true }, Action::ToggleWrapMode),
        (KeyBinding { key: KEY_F_LOWER, key_lower: KEY_F_LOWER, ctrl: true, shift: false, alt: false }, Action::Search),
        (KeyBinding { key: KEY_H_LOWER, key_lower: KEY_H_LOWER, ctrl: true, shift: false, alt: false }, Action::Replace),
        (KeyBinding { key: KEY_B_LOWER, key_lower: KEY_B_LOWER, ctrl: true, shift: false, alt: false }, Action::FormatBold),
        (KeyBinding { key: KEY_I_LOWER, key_lower: KEY_I_LOWER, ctrl: true, shift: false, alt: false }, Action::FormatItalic),
        (KeyBinding { key: KEY_K_LOWER, key_lower: KEY_K_LOWER, ctrl: true, shift: false, alt: false }, Action::FormatLink),
        (KeyBinding { key: KEY_X, key_lower: KEY_X_LOWER, ctrl: true, shift: true, alt: false }, Action::FormatStrikethrough),
        (KeyBinding { key: KEY_X_LOWER, key_lower: KEY_X_LOWER, ctrl: true, shift: true, alt: false }, Action::FormatStrikethrough),
        (KeyBinding { key: KEY_H, key_lower: KEY_H_LOWER, ctrl: true, shift: true, alt: false }, Action::FormatHeading),
        (KeyBinding { key: KEY_C, key_lower: KEY_C_LOWER, ctrl: true, shift: true, alt: false }, Action::FormatCode),
        (KeyBinding { key: KEY_C_LOWER, key_lower: KEY_C_LOWER, ctrl: true, shift: true, alt: false }, Action::FormatCode),
        (KeyBinding { key: KEY_Q, key_lower: KEY_Q_LOWER, ctrl: true, shift: true, alt: false }, Action::FormatBlockquote),
        (KeyBinding { key: KEY_Q_LOWER, key_lower: KEY_Q_LOWER, ctrl: true, shift: true, alt: false }, Action::FormatBlockquote),
        (KeyBinding { key: KEY_8, key_lower: KEY_8, ctrl: true, shift: true, alt: false }, Action::FormatBulletList),
        (KeyBinding { key: KEY_ASTERISK, key_lower: KEY_ASTERISK, ctrl: true, shift: true, alt: false }, Action::FormatBulletList),
        (KeyBinding { key: KEY_7, key_lower: KEY_7, ctrl: true, shift: true, alt: false }, Action::FormatNumberedList),
        (KeyBinding { key: KEY_AMPERSAND, key_lower: KEY_AMPERSAND, ctrl: true, shift: true, alt: false }, Action::FormatNumberedList),
        (KeyBinding { key: KEY_TAB, key_lower: KEY_TAB, ctrl: false, shift: false, alt: false }, Action::Indent),
        (KeyBinding { key: KEY_ISO_LEFT_TAB, key_lower: KEY_ISO_LEFT_TAB, ctrl: false, shift: true, alt: false }, Action::Unindent),
        (KeyBinding { key: KEY_TAB, key_lower: KEY_TAB, ctrl: false, shift: true, alt: false }, Action::Unindent),
        (KeyBinding { key: KEY_PLUS, key_lower: KEY_PLUS, ctrl: true, shift: false, alt: false }, Action::ZoomIn),
        (KeyBinding { key: KEY_EQUAL, key_lower: KEY_EQUAL, ctrl: true, shift: false, alt: false }, Action::ZoomIn),
        (KeyBinding { key: KEY_MINUS, key_lower: KEY_MINUS, ctrl: true, shift: false, alt: false }, Action::ZoomOut),
        (KeyBinding { key: KEY_0, key_lower: KEY_0, ctrl: true, shift: false, alt: false }, Action::ZoomReset),
    ];
    assert(r@ =~= default_bindings());
    r
}

// ---------------------------------------------------------------------------
// Messages
// ---------------------------------------------------------------------------

/// The name of an action, as `Debug` prints it.
pub open spec fn action_name(a: Action) -> &'static str {
    match a {
        Action::Save => "Save",
        Action::SaveAs => "SaveAs",
        Action::New => "New",
        Action::Open => "Open",
        Action::Close => "Close",
        Action::Quit => "Quit",
        Action::Undo => "Undo",
        Action::Redo => "Redo",
        Action::TogglePreview => "TogglePreview",
        Action::Search => "Search",
        Action::Replace => "Replace",
        Action::FormatBold => "FormatBold",
        Action::FormatItalic => "FormatItalic",
        Action::FormatLink => "FormatLink",
        Action::FormatStrikethrough => "FormatStrikethrough",
        Action::FormatHeading => "FormatHeading",
        Action::FormatBulletList => "FormatBulletList",
        Action::FormatNumberedList => "FormatNumberedList",
        Action::FormatCode => "FormatCode",
        Action::FormatBlockquote => "FormatBlockquote",
        Action::Indent => "Indent",
        Action::Unindent => "Unindent",
        Action::ZoomIn => "ZoomIn",
        Action::ZoomOut => "ZoomOut",
        Action::ZoomReset => "ZoomReset",
        Action::ToggleConceal => "ToggleConceal",
        Action::ToggleWrapMode => "ToggleWrapMode",
    }
}

impl Action {
    pub fn name(&self) -> (r: &'static str)
        ensures
            r == action_name(*self),
    {
        match self {
            Action::Save => "Save",
            Action::SaveAs => "SaveAs",
            Action::New => "New",
            Action::Open => "Open",
            Action::Close => "Close",
            Action::Quit => "Quit",
            Action::Undo => "Undo",
            Action::Redo => "Redo",
            Action::TogglePreview => "TogglePreview",
            Action::Search => "Search",
            Action::Replace => "Replace",
            Action::FormatBold => "FormatBold",
            Action::FormatItalic => "FormatItalic",
            Action::FormatLink => "FormatLink",
            Action::FormatStrikethrough => "FormatStrikethrough",
            Action::FormatHeading => "FormatHeading",
            Action::FormatBulletList => "FormatBulletList",
            Action::FormatNumberedList => "FormatNumberedList",
            Action::FormatCode => "FormatCode",
            Action::FormatBlockquote => "FormatBlockquote",
            Action::Indent => "Indent",
            Action::Unindent => "Unindent",
            Action::ZoomIn => "ZoomIn",
            Action::ZoomOut => "ZoomOut",
            Action::ZoomReset => "ZoomReset",
            Action::ToggleConceal => "ToggleConceal",
            Action::ToggleWrapMode => "ToggleWrapMode",
        }
    }
}

/// The report of a shortcut bound to both `prev` and `action`.
pub fn conflict_message(prev: Action, action: Action) -> (r: String)
    ensures
        r@ == "Conflit entre "@ + action_name(prev)@ + " et "@ + action_name(action)@,
{
    let mut out = chars_of("Conflit entre ");
    push_str(&mut out, prev.name());
    push_str(&mut out, " et ");
    push_str(&mut out, action.name());
    into_string(out)
}

} // verus!
