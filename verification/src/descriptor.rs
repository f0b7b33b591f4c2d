//! The descriptor model: modifier state, symbolic keys, mouse buttons, and
//! the normalized event descriptor (`EventType`) that keys the binding table,
//! together with the 16-way modifier-combination expansion.

use vstd::prelude::*;

verus! {

/// The four independent modifier flags. Equality is structural; the default
/// value has every flag cleared.
#[derive(Debug, Copy, Clone, PartialEq, Eq, Hash, Structural)]
pub struct Modifiers {
    pub shift: bool,
    pub ctrl: bool,
    pub alt: bool,
    pub logo: bool,
}

impl Default for Modifiers {
    /// All four flags cleared.
    fn default() -> (r: Self)
        ensures
            r == (Modifiers { shift: false, ctrl: false, alt: false, logo: false }),
    {
        Modifiers { shift: false, ctrl: false, alt: false, logo: false }
    }
}

/// A mouse button: the three named buttons, plus vendor-specific buttons
/// identified by their numeric code.
#[derive(Debug, Copy, Clone, PartialEq, Eq, Hash, Structural)]
pub enum MouseButton {
    Left,
    Right,
    Middle,
    Other(u8),
}

/// The closed set of symbolic keyboard keys. A pure identity code with no
/// payload; unmapped raw codes are a translation concern of the event feed.
#[derive(Debug, Copy, Clone, PartialEq, Eq, Hash, Structural)]
pub enum Key {
    Key1,
    Key2,
    Key3,
    Key4,
    Key5,
    Key6,
    Key7,
    Key8,
    Key9,
    Key0,
    A,
    B,
    C,
    D,
    E,
    F,
    G,
    H,
    I,
    J,
    K,
    L,
    M,
    N,
    O,
    P,
    Q,
    R,
    S,
    T,
    U,
    V,
    W,
    X,
    Y,
    Z,
    Escape,
    F1,
    F2,
    F3,
    F4,
    F5,
    F6,
    F7,
    F8,
    F9,
    F10,
    F11,
    F12,
    F13,
    F14,
    F15,
    Snapshot,
    Scroll,
    Pause,
    Insert,
    Home,
    Delete,
    End,
    PageDown,
    PageUp,
    Left,
    Up,
    Right,
    Down,
    Back,
    Return,
    Space,
    Compose,
    Caret,
    Numlock,
    Numpad0,
    Numpad1,
    Numpad2,
    Numpad3,
    Numpad4,
    Numpad5,
    Numpad6,
    Numpad7,
    Numpad8,
    Numpad9,
    AbntC1,
    AbntC2,
    Add,
    Apostrophe,
    Apps,
    At,
    Ax,
    Backslash,
    Calculator,
    Capital,
    Colon,
    Comma,
    Convert,
    Decimal,
    Divide,
    Equals,
    Grave,
    Kana,
    Kanji,
    LAlt,
    LBracket,
    LControl,
    LMenu,
    LShift,
    LWin,
    Mail,
    MediaSelect,
    MediaStop,
    Minus,
    Multiply,
    Mute,
    MyComputer,
    NavigateForward,
    NavigateBackward,
    NextTrack,
    NoConvert,
    NumpadComma,
    NumpadEnter,
    NumpadEquals,
    OEM102,
    Period,
    PlayPause,
    Power,
    PrevTrack,
    RAlt,
    RBracket,
    RControl,
    RMenu,
    RShift,
    RWin,
    Semicolon,
    Slash,
    Sleep,
    Stop,
    Subtract,
    Sysrq,
    Tab,
    Underline,
    Unlabeled,
    VolumeDown,
    VolumeUp,
    Wake,
    WebBack,
    WebFavorites,
    WebForward,
    WebHome,
    WebRefresh,
    WebSearch,
    WebStop,
    Yen,
    Copy,
    Paste,
    Cut,
}

/// The normalized event descriptor. It is the key of the binding table, so
/// equality is structural and total: two descriptors that differ only in
/// their modifier state are distinct keys.
#[derive(Debug, Copy, Clone, PartialEq, Eq, Hash, Structural)]
pub enum EventType {
    KeyPress(Key, Modifiers),
    KeyRelease(Key, Modifiers),
    ScanCodePress(u32, Modifiers),
    ScanCodeRelease(u32, Modifiers),
    MousePress(MouseButton, Modifiers),
    MouseRelease(MouseButton, Modifiers),
    WindowResized,
    WindowMoved,
    Closed,
    DroppedFile,
    HoveredFile,
    HoveredFileCancelled,
    Focused,
    UnFocused,
    MouseMoved,
    MouseEntered,
    MouseLeft,
    MouseWheel,
    Refresh,
}

/// The modifier state at combination index `i`, read as a 4-bit pattern:
/// bit 0 is shift, bit 1 is ctrl, bit 2 is alt, bit 3 is logo.
pub open spec fn combo_modifiers(i: int) -> Modifiers {
    Modifiers {
        shift: i % 2 > 0,
        ctrl: i % 4 > 1,
        alt: i % 8 > 3,
        logo: i % 16 > 7,
    }
}

/// The combination index whose 4-bit pattern is exactly the given state.
pub open spec fn modifiers_index(m: Modifiers) -> int {
    (if m.shift { 1int } else { 0 }) + (if m.ctrl { 2int } else { 0 }) + (if m.alt {
        4int
    } else {
        0
    }) + (if m.logo { 8int } else { 0 })
}

/// For `0 <= i < 16`, `combo_modifiers` and `modifiers_index` invert each
/// other, so the 16 combinations are pairwise distinct.
pub proof fn lemma_modifiers_index_combo(i: int)
    requires
        0 <= i < 16,
    ensures
        modifiers_index(combo_modifiers(i)) == i,
{
}

/// Distinct combination indices give distinct modifier states.
pub proof fn lemma_combo_modifiers_injective(i: int, j: int)
    requires
        0 <= i < 16,
        0 <= j < 16,
        i != j,
    ensures
        combo_modifiers(i) != combo_modifiers(j),
{
    lemma_modifiers_index_combo(i);
    lemma_modifiers_index_combo(j);
}

/// Every modifier state is hit by some combination index: the 16
/// combinations cover the whole power set of the four flags.
pub proof fn lemma_combo_modifiers_covers(m: Modifiers)
    ensures
        0 <= modifiers_index(m) < 16,
        combo_modifiers(modifiers_index(m)) == m,
{
}

impl EventType {
    /// Whether this descriptor's variant carries a modifier state.
    pub open spec fn carries_modifiers(self) -> bool {
        match self {
            EventType::KeyPress(_, _) => true,
            EventType::KeyRelease(_, _) => true,
            EventType::ScanCodePress(_, _) => true,
            EventType::ScanCodeRelease(_, _) => true,
            EventType::MousePress(_, _) => true,
            EventType::MouseRelease(_, _) => true,
            _ => false,
        }
    }

    /// The carried modifier state, if the variant has one.
    pub open spec fn spec_modifiers(self) -> Option<Modifiers> {
        match self {
            EventType::KeyPress(_, m) => Some(m),
            EventType::KeyRelease(_, m) => Some(m),
            EventType::ScanCodePress(_, m) => Some(m),
            EventType::ScanCodeRelease(_, m) => Some(m),
            EventType::MousePress(_, m) => Some(m),
            EventType::MouseRelease(_, m) => Some(m),
            _ => None,
        }
    }

    /// The same descriptor with its modifier state replaced; the identity on
    /// variants that carry none.
    pub open spec fn spec_with_modifiers(self, m: Modifiers) -> EventType {
        match self {
            EventType::KeyPress(k, _) => EventType::KeyPress(k, m),
            EventType::KeyRelease(k, _) => EventType::KeyRelease(k, m),
            EventType::ScanCodePress(s, _) => EventType::ScanCodePress(s, m),
            EventType::ScanCodeRelease(s, _) => EventType::ScanCodeRelease(s, m),
            EventType::MousePress(b, _) => EventType::MousePress(b, m),
            EventType::MouseRelease(b, _) => EventType::MouseRelease(b, m),
            _ => self,
        }
    }

    /// The descriptor at slot `i` of the modifier-combination expansion.
    pub open spec fn combo(self, i: int) -> EventType {
        self.spec_with_modifiers(combo_modifiers(i))
    }

    /// The carried modifier state, if the variant has one.
    pub fn modifiers(&self) -> (r: Option<Modifiers>)
        ensures
            r == self.spec_modifiers(),
    {
        match *self {
            EventType::KeyPress(_, m) => Some(m),
            EventType::KeyRelease(_, m) => Some(m),
            EventType::ScanCodePress(_, m) => Some(m),
            EventType::ScanCodeRelease(_, m) => Some(m),
            EventType::MousePress(_, m) => Some(m),
            EventType::MouseRelease(_, m) => Some(m),
            _ => None,
        }
    }

    /// The same descriptor with its modifier state replaced; the identity on
    /// variants that carry none.
    pub fn with_modifiers(self, m: Modifiers) -> (r: EventType)
        ensures
            r == self.spec_with_modifiers(m),
    {
        match self {
            EventType::KeyPress(k, _) => EventType::KeyPress(k, m),
            EventType::KeyRelease(k, _) => EventType::KeyRelease(k, m),
            EventType::ScanCodePress(s, _) => EventType::ScanCodePress(s, m),
            EventType::ScanCodeRelease(s, _) => EventType::ScanCodeRelease(s, m),
            EventType::MousePress(b, _) => EventType::MousePress(b, m),
            EventType::MouseRelease(b, _) => EventType::MouseRelease(b, m),
            other => other,
        }
    }

    /// One slot of the expansion, as an executable function.
    fn combo_at(self, i: usize) -> (r: EventType)
        requires
            i < 16,
        ensures
            r == self.combo(i as int),
    {
        let m = Modifiers { shift: i % 2 > 0, ctrl: i % 4 > 1, alt: i % 8 > 3, logo: i % 16 > 7 };
        self.with_modifiers(m)
    }

    /// The 16 descriptors covering every combination of the four modifier
    /// flags. For a variant that carries no modifiers, all 16 slots equal
    /// `self` unchanged.
    pub fn modifier_combos(self) -> (r: [EventType; 16])
        ensures
            forall|i: int| 0 <= i < 16 ==> r@[i] == self.combo(i),
            !self.carries_modifiers() ==> forall|i: int| 0 <= i < 16 ==> r@[i] == self,
    {
        [
            self.combo_at(0),
            self.combo_at(1),
            self.combo_at(2),
            self.combo_at(3),
            self.combo_at(4),
            self.combo_at(5),
            self.combo_at(6),
            self.combo_at(7),
            self.combo_at(8),
            self.combo_at(9),
            self.combo_at(10),
            self.combo_at(11),
            self.combo_at(12),
            self.combo_at(13),
            self.combo_at(14),
            self.combo_at(15),
        ]
    }
}

/// Modifier expansion completeness: for a modifier-carrying descriptor, the
/// 16 expansion slots all keep the descriptor's other fields, carry the 16
/// pairwise-distinct modifier combinations, and cover the whole power set of
/// the four flags.
pub proof fn lemma_modifier_combos_complete(e: EventType)
    requires
        e.carries_modifiers(),
    ensures
        forall|i: int| 0 <= i < 16 ==> (#[trigger] e.combo(i)).spec_modifiers() == Some(
            combo_modifiers(i),
        ),
        forall|i: int, m: Modifiers|
            0 <= i < 16 ==> #[trigger] e.combo(i).spec_with_modifiers(m) == e.spec_with_modifiers(
                m,
            ),
        forall|i: int, j: int|
            #![trigger e.combo(i), e.combo(j)]
            0 <= i < 16 && 0 <= j < 16 && i != j ==> e.combo(i) != e.combo(j),
        forall|m: Modifiers|
            #![trigger e.spec_with_modifiers(m)]
            exists|i: int| 0 <= i < 16 && #[trigger] e.combo(i) == e.spec_with_modifiers(m),
{
    assert forall|i: int, j: int|
        #![trigger e.combo(i), e.combo(j)]
        0 <= i < 16 && 0 <= j < 16 && i != j implies e.combo(i) != e.combo(j) by {
        lemma_combo_modifiers_injective(i, j);
    }
    assert forall|m: Modifiers|
        #![trigger e.spec_with_modifiers(m)]
        exists|i: int| 0 <= i < 16 && #[trigger] e.combo(i) == e.spec_with_modifiers(m) by {
        lemma_combo_modifiers_covers(m);
        let i = modifiers_index(m);
        assert(0 <= i < 16 && e.combo(i) == e.spec_with_modifiers(m));
    }
}

/// Modifier expansion is the identity on descriptors whose variant carries
/// no modifier state: every expansion slot equals the input.
pub proof fn lemma_modifier_combos_identity(e: EventType)
    requires
        !e.carries_modifiers(),
    ensures
        forall|i: int| 0 <= i < 16 ==> #[trigger] e.combo(i) == e,
{
}

} // verus!
