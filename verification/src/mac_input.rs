//! What a client's keyboard and mouse do on the Mac.

use vstd::prelude::*;

use crate::keymap::{
    get_unicode_override, is_mac_modifier, is_numpad_key, mac_key, modifier, numpad, punctuation,
    rdp_scancode_to_mac,
};

verus! {

pub const K_CG_EVENT_LEFT_MOUSE_DOWN: u32 = 1;

pub const K_CG_EVENT_LEFT_MOUSE_UP: u32 = 2;

pub const K_CG_EVENT_RIGHT_MOUSE_DOWN: u32 = 3;

pub const K_CG_EVENT_RIGHT_MOUSE_UP: u32 = 4;

pub const K_CG_EVENT_MOUSE_MOVED: u32 = 5;

pub const K_CG_EVENT_LEFT_MOUSE_DRAGGED: u32 = 6;

pub const K_CG_EVENT_RIGHT_MOUSE_DRAGGED: u32 = 7;

pub const K_CG_EVENT_OTHER_MOUSE_DOWN: u32 = 25;

pub const K_CG_EVENT_OTHER_MOUSE_UP: u32 = 26;

pub const K_CG_EVENT_OTHER_MOUSE_DRAGGED: u32 = 27;

pub const K_CG_MOUSE_BUTTON_LEFT: u32 = 0;

pub const K_CG_MOUSE_BUTTON_RIGHT: u32 = 1;

pub const K_CG_MOUSE_BUTTON_CENTER: u32 = 2;

/// Caps lock.
pub const K_CG_EVENT_FLAG_MASK_ALPHA_SHIFT: u64 = 0x0001_0000;

pub const K_CG_EVENT_FLAG_MASK_SHIFT: u64 = 0x0002_0000;

pub const K_CG_EVENT_FLAG_MASK_CONTROL: u64 = 0x0004_0000;

/// Option.
pub const K_CG_EVENT_FLAG_MASK_ALTERNATE: u64 = 0x0008_0000;

pub const K_CG_EVENT_FLAG_MASK_COMMAND: u64 = 0x0010_0000;

pub const K_CG_EVENT_FLAG_MASK_NUMERIC_PAD: u64 = 0x0020_0000;

pub const K_CG_EVENT_FLAG_MASK_HELP: u64 = 0x0040_0000;

/// Fn.
pub const K_CG_EVENT_FLAG_MASK_SECONDARY_FN: u64 = 0x0080_0000;

/// Milliseconds between two looks for stuck keys.
pub const WATCHDOG_INTERVAL_MS: u64 = 250;

/// Nanoseconds after which a key without a repetition is stuck.
pub const KEY_IDLE_LIMIT: u64 = 1_500_000_000;

/// Nanoseconds for which a modifier can be held.
pub const MODIFIER_HOLD_LIMIT: u64 = 15_000_000_000;

/// Milliseconds without any input after which modifiers are stuck.
pub const INPUT_IDLE_LIMIT_MS: u64 = 5000;

/// What a client's keyboard does.
#[derive(Debug, Clone, Copy, PartialEq, Eq, Structural)]
pub enum KeyboardEvent {
    Pressed { code: u8, extended: bool },
    Released { code: u8, extended: bool },
    UnicodePressed(u16),
    UnicodeReleased(u16),
    /// The client brings its keyboard and that of the Mac in line.
    Synchronize,
}

/// What a client's mouse does. Where it is, is in the coordinates of the Mac, without the parts of a
/// pixel.
#[derive(Debug, Clone, Copy, PartialEq, Eq, Structural)]
pub enum MouseEvent {
    Moved { x: i32, y: i32 },
    LeftPressed,
    LeftReleased,
    RightPressed,
    RightReleased,
    MiddlePressed,
    MiddleReleased,
    VerticalScroll { value: i16 },
    Other,
}

/// Where the mouse is when something is posted.
#[derive(Debug, Clone, Copy, PartialEq, Eq, Structural)]
pub enum Position {
    /// Where it has just moved, to the part of a pixel.
    Moved,
    /// Where it was before.
    At { x: i32, y: i32 },
}

/// What is posted to macOS.
#[derive(Debug, Clone, Copy, PartialEq, Eq, Structural)]
pub enum Posted {
    Key { keycode: u16, down: bool, flags: u64, unicode: Option<u16> },
    Mouse { event_type: u32, button: u32, position: Position },
    Scroll { lines: i32 },
}

/// Which modifiers are down.
#[derive(Debug, Clone, Copy, PartialEq, Eq, Structural)]
pub struct Modifiers {
    pub left_shift: bool,
    pub right_shift: bool,
    pub left_ctrl: bool,
    pub right_ctrl: bool,
    pub left_alt: bool,
    pub right_alt: bool,
    pub left_cmd: bool,
    pub right_cmd: bool,
    pub caps_lock: bool,
}

impl Modifiers {
    /// None at all.
    pub open spec fn none() -> Modifiers {
        Modifiers {
            left_shift: false,
            right_shift: false,
            left_ctrl: false,
            right_ctrl: false,
            left_alt: false,
            right_alt: false,
            left_cmd: false,
            right_cmd: false,
            caps_lock: false,
        }
    }

    /// Whether a shift key is down.
    pub open spec fn shift(self) -> bool {
        self.left_shift || self.right_shift
    }

    /// Whether a key is down with which shortcuts are made.
    pub open spec fn shortcut(self) -> bool {
        self.left_ctrl || self.right_ctrl || self.left_alt || self.right_alt || self.left_cmd
            || self.right_cmd
    }

    /// The flags that go with an event.
    pub open spec fn flags(self) -> u64 {
        (if self.shift() {
            K_CG_EVENT_FLAG_MASK_SHIFT
        } else {
            0
        }) | (if self.left_ctrl || self.right_ctrl {
            K_CG_EVENT_FLAG_MASK_CONTROL
        } else {
            0
        }) | (if self.left_alt || self.right_alt {
            K_CG_EVENT_FLAG_MASK_ALTERNATE
        } else {
            0
        }) | (if self.left_cmd || self.right_cmd {
            K_CG_EVENT_FLAG_MASK_COMMAND
        } else {
            0
        }) | (if self.caps_lock {
            K_CG_EVENT_FLAG_MASK_ALPHA_SHIFT
        } else {
            0
        })
    }

    /// The modifiers once a key is set up or down; any key but a modifier leaves them as they are.
    pub open spec fn with(self, key: u16, down: bool) -> Modifiers {
        match key {
            0x38 => Modifiers { left_shift: down, ..self },
            0x3C => Modifiers { right_shift: down, ..self },
            0x3B => Modifiers { left_ctrl: down, ..self },
            0x3E => Modifiers { right_ctrl: down, ..self },
            0x3A => Modifiers { left_alt: down, ..self },
            0x3D => Modifiers { right_alt: down, ..self },
            0x37 => Modifiers { left_cmd: down, ..self },
            0x36 => Modifiers { right_cmd: down, ..self },
            0x39 => Modifiers { caps_lock: down, ..self },
            _ => self,
        }
    }

    /// The modifiers once a key is pressed or released. Caps lock turns with every press.
    pub open spec fn after(self, key: u16, down: bool) -> Modifiers {
        if key == 0x39 {
            if down {
                Modifiers { caps_lock: !self.caps_lock, ..self }
            } else {
                self
            }
        } else {
            self.with(key, down)
        }
    }

    /// No modifier down.
    pub fn new() -> (r: Modifiers)
        ensures
            r == Modifiers::none(),
    {
        Modifiers {
            left_shift: false,
            right_shift: false,
            left_ctrl: false,
            right_ctrl: false,
            left_alt: false,
            right_alt: false,
            left_cmd: false,
            right_cmd: false,
            caps_lock: false,
        }
    }

    /// Sets a key up or down.
    fn set(&mut self, key: u16, down: bool)
        ensures
            *final(self) == old(self).with(key, down),
    {
        let before = *self;
        *self = match key {
            0x38 => Modifiers { left_shift: down, ..before },
            0x3C => Modifiers { right_shift: down, ..before },
            0x3B => Modifiers { left_ctrl: down, ..before },
            0x3E => Modifiers { right_ctrl: down, ..before },
            0x3A => Modifiers { left_alt: down, ..before },
            0x3D => Modifiers { right_alt: down, ..before },
            0x37 => Modifiers { left_cmd: down, ..before },
            0x36 => Modifiers { right_cmd: down, ..before },
            0x39 => Modifiers { caps_lock: down, ..before },
            _ => before,
        };
    }

    /// Notes that a key is pressed or released.
    fn note(&mut self, key: u16, down: bool)
        ensures
            *final(self) == old(self).after(key, down),
    {
        if key == 0x39 {
            if down {
                self.caps_lock = !self.caps_lock;
            }
        } else {
            self.set(key, down);
        }
    }

    /// The flags that go with an event.
    fn event_flags(&self) -> (r: u64)
        ensures
            r == self.flags(),
    {
        let shift: u64 = if self.left_shift || self.right_shift {
            K_CG_EVENT_FLAG_MASK_SHIFT
        } else {
            0
        };
        let ctrl: u64 = if self.left_ctrl || self.right_ctrl {
            K_CG_EVENT_FLAG_MASK_CONTROL
        } else {
            0
        };
        let alt: u64 = if self.left_alt || self.right_alt {
            K_CG_EVENT_FLAG_MASK_ALTERNATE
        } else {
            0
        };
        let cmd: u64 = if self.left_cmd || self.right_cmd {
            K_CG_EVENT_FLAG_MASK_COMMAND
        } else {
            0
        };
        let caps: u64 = if self.caps_lock {
            K_CG_EVENT_FLAG_MASK_ALPHA_SHIFT
        } else {
            0
        };
        shift | ctrl | alt | cmd | caps
    }
}

/// Since when a key has been held.
#[derive(Debug, Clone, Copy, PartialEq, Eq, Structural)]
pub struct KeyState {
    /// When it was pressed, in nanoseconds.
    pub first_pressed: u64,
    /// When it was last pressed or repeated, in nanoseconds.
    pub last_event: u64,
    pub is_modifier: bool,
}

/// A key that is held.
#[derive(Debug, Clone, Copy, PartialEq, Eq, Structural)]
pub struct HeldKey {
    pub key: u16,
    pub state: KeyState,
}

/// The keys that are held, none of them twice.
#[derive(Debug, Clone)]
pub struct HeldKeys {
    pub entries: Vec<HeldKey>,
}

/// Whether the key is among the entries.
pub open spec fn has_key(entries: Seq<HeldKey>, key: u16) -> bool {
    exists|i: int| 0 <= i < entries.len() && (#[trigger] entries[i]).key == key
}

/// The entry of the key.
pub open spec fn entry_of(entries: Seq<HeldKey>, key: u16) -> KeyState {
    entries[choose|i: int| 0 <= i < entries.len() && (#[trigger] entries[i]).key == key].state
}

/// What the entries say of each key.
pub open spec fn key_map(entries: Seq<HeldKey>) -> Map<u16, KeyState> {
    Map::new(|key: u16| has_key(entries, key), |key: u16| entry_of(entries, key))
}

/// Whether no key occurs twice.
pub open spec fn distinct(entries: Seq<HeldKey>) -> bool {
    forall|i: int, j: int|
        0 <= i < entries.len() && 0 <= j < entries.len() && (#[trigger] entries[i]).key == (
        #[trigger] entries[j]).key ==> i == j
}

/// A key-up event without any modifiers.
pub open spec fn key_up(key: u16) -> Posted {
    Posted::Key { keycode: key, down: false, flags: 0, unicode: None }
}

/// Whether the events are key-up events, one for each of the keys.
pub open spec fn releases(posted: Seq<Posted>, keys: Set<u16>) -> bool {
    &&& forall|key: u16| #[trigger]
        keys.contains(key) ==> exists|i: int| 0 <= i < posted.len() && #[trigger] posted[i] == key_up(key)
    &&& forall|i: int|
        0 <= i < posted.len() ==> (#[trigger] posted[i] matches Posted::Key { keycode, .. } && posted[i]
            == key_up(keycode) && keys.contains(keycode))
    &&& forall|i: int, j: int|
        0 <= i < posted.len() && 0 <= j < posted.len() && #[trigger] posted[i] == #[trigger] posted[j]
            ==> i == j
}

proof fn lemma_entry(entries: Seq<HeldKey>, i: int)
    requires
        distinct(entries),
        0 <= i < entries.len(),
    ensures
        has_key(entries, entries[i].key),
        entry_of(entries, entries[i].key) == entries[i].state,
{
    let key = entries[i].key;
    assert(entries[i].key == key);
    let k = choose|k: int| 0 <= k < entries.len() && (#[trigger] entries[k]).key == key;
    assert(entries[k].key == entries[i].key);
}

impl View for HeldKeys {
    type V = Map<u16, KeyState>;

    open spec fn view(&self) -> Map<u16, KeyState> {
        key_map(self.entries@)
    }
}

impl HeldKeys {
    /// Whether no key is held twice.
    pub open spec fn wf(self) -> bool {
        distinct(self.entries@)
    }

    /// No key.
    pub fn new() -> (r: HeldKeys)
        ensures
            r.wf(),
            r@ == Map::<u16, KeyState>::empty(),
    {
        let r = HeldKeys { entries: Vec::new() };
        assert(r@ =~= Map::<u16, KeyState>::empty());
        r
    }

    /// Where the key stands.
    fn find(&self, key: u16) -> (r: Option<usize>)
        ensures
            match r {
                Some(i) => i < self.entries@.len() && self.entries@[i as int].key == key,
                None => !has_key(self.entries@, key),
            },
    {
        let mut i: usize = 0;
        while i < self.entries.len()
            invariant
                i <= self.entries@.len(),
                forall|k: int| 0 <= k < i ==> (#[trigger] self.entries@[k]).key != key,
            decreases self.entries@.len() - i,
        {
            if self.entries[i].key == key {
                return Some(i);
            }
            i = i + 1;
        }
        None
    }

    /// Notes that a key is pressed, for the first time or again.
    pub fn press(&mut self, key: u16, is_modifier: bool, now: u64)
        requires
            old(self).wf(),
        ensures
            final(self).wf(),
            final(self)@ == old(self)@.insert(
                key,
                if old(self)@.contains_key(key) {
                    KeyState { last_event: now, ..old(self)@[key] }
                } else {
                    KeyState { first_pressed: now, last_event: now, is_modifier }
                },
            ),
    {
        let ghost before = self.entries@;
        match self.find(key) {
            Some(i) => {
                let mut entry = self.entries[i];
                entry.state.last_event = now;
                self.entries.set(i, entry);
                proof {
                    let after = self.entries@;
                    lemma_entry(before, i as int);
                    assert(distinct(after)) by {
                        assert forall|a: int, b: int|
                            0 <= a < after.len() && 0 <= b < after.len() && (#[trigger] after[a]).key == (
                            #[trigger] after[b]).key implies a == b by {
                            assert(before[a].key == before[b].key);
                        }
                    }
                    assert forall|k: u16| has_key(after, k) <==> has_key(before, k) by {
                        if has_key(after, k) {
                            let a = choose|a: int| 0 <= a < after.len() && (#[trigger] after[a]).key == k;
                            assert(before[a].key == k);
                        }
                        if has_key(before, k) {
                            let a = choose|a: int| 0 <= a < before.len() && (#[trigger] before[a]).key == k;
                            assert(after[a].key == k);
                        }
                    }
                    assert forall|k: u16| has_key(after, k) implies entry_of(after, k) == if k == key {
                        KeyState { last_event: now, ..entry_of(before, key) }
                    } else {
                        entry_of(before, k)
                    } by {
                        let a = choose|a: int| 0 <= a < after.len() && (#[trigger] after[a]).key == k;
                        lemma_entry(after, a);
                        lemma_entry(before, a);
                        if k == key {
                            assert(after[a].key == after[i as int].key);
                        }
                    }
                    assert(self@ =~= old(self)@.insert(
                        key,
                        KeyState { last_event: now, ..old(self)@[key] },
                    ));
                }
            },
            None => {
                let state = KeyState { first_pressed: now, last_event: now, is_modifier };
                self.entries.push(HeldKey { key, state });
                proof {
                    let after = self.entries@;
                    let last = before.len() as int;
                    assert(distinct(after)) by {
                        assert forall|a: int, b: int|
                            0 <= a < after.len() && 0 <= b < after.len() && (#[trigger] after[a]).key == (
                            #[trigger] after[b]).key implies a == b by {
                            if a < last && b < last {
                                assert(before[a].key == before[b].key);
                            } else if a < last {
                                assert(before[a].key == key);
                            } else if b < last {
                                assert(before[b].key == key);
                            }
                        }
                    }
                    lemma_entry(after, last);
                    assert forall|k: u16| has_key(after, k) <==> has_key(before, k) || k == key by {
                        if has_key(after, k) {
                            let a = choose|a: int| 0 <= a < after.len() && (#[trigger] after[a]).key == k;
                            if a < last {
                                assert(before[a].key == k);
                            }
                        }
                        if has_key(before, k) {
                            let a = choose|a: int| 0 <= a < before.len() && (#[trigger] before[a]).key == k;
                            assert(after[a].key == k);
                        }
                    }
                    assert forall|k: u16| has_key(before, k) implies entry_of(after, k) == entry_of(before, k) by {
                        let a = choose|a: int| 0 <= a < before.len() && (#[trigger] before[a]).key == k;
                        lemma_entry(before, a);
                        lemma_entry(after, a);
                    }
                    assert(self@ =~= old(self)@.insert(key, state));
                }
            },
        }
    }

    /// Notes that a key is released.
    pub fn release(&mut self, key: u16)
        requires
            old(self).wf(),
        ensures
            final(self).wf(),
            final(self)@ == old(self)@.remove(key),
    {
        let ghost before = self.entries@;
        match self.find(key) {
            Some(i) => {
                self.entries.remove(i);
                proof {
                    let after = self.entries@;
                    assert(after =~= before.remove(i as int));
                    assert forall|a: int| 0 <= a < after.len() implies #[trigger] after[a] == before[if a < i {
                        a
                    } else {
                        a + 1
                    }] by {}
                    assert(distinct(after)) by {
                        assert forall|a: int, b: int|
                            0 <= a < after.len() && 0 <= b < after.len() && (#[trigger] after[a]).key == (
                            #[trigger] after[b]).key implies a == b by {
                            let p = if a < i {
                                a
                            } else {
                                a + 1
                            };
                            let q = if b < i {
                                b
                            } else {
                                b + 1
                            };
                            assert(before[p].key == before[q].key);
                        }
                    }
                    assert forall|k: u16| has_key(after, k) <==> has_key(before, k) && k != key by {
                        if has_key(after, k) {
                            let a = choose|a: int| 0 <= a < after.len() && (#[trigger] after[a]).key == k;
                            let p = if a < i {
                                a
                            } else {
                                a + 1
                            };
                            assert(before[p].key == k);
                            if k == key {
                                assert(before[p].key == before[i as int].key);
                            }
                        }
                        if has_key(before, k) && k != key {
                            let a = choose|a: int| 0 <= a < before.len() && (#[trigger] before[a]).key == k;
                            let p = if a < i {
                                a
                            } else {
                                a - 1
                            };
                            assert(after[p].key == k);
                        }
                    }
                    assert forall|k: u16| has_key(after, k) implies entry_of(after, k) == entry_of(before, k) by {
                        let a = choose|a: int| 0 <= a < after.len() && (#[trigger] after[a]).key == k;
                        lemma_entry(after, a);
                        lemma_entry(
                            before,
                            if a < i {
                                a
                            } else {
                                a + 1
                            },
                        );
                    }
                    assert(self@ =~= old(self)@.remove(key));
                }
            },
            None => {
                assert(self@ =~= old(self)@.remove(key));
            },
        }
    }
}

/// Which of the held keys are let go.
#[derive(Debug, Clone, Copy, PartialEq, Eq, Structural)]
pub enum Sweep {
    /// All of them.
    All,
    /// Those that are no modifiers.
    Ordinary,
    /// Those that are stuck at the given moment, when there has been no input for the given
    /// milliseconds.
    Stuck { now: u64, idle_ms: u64 },
}

/// How much later one moment is than another, if it is.
pub open spec fn since(now: u64, then_at: u64) -> int {
    if now >= then_at {
        now - then_at
    } else {
        0
    }
}

/// How much later one moment is than another, if it is.
fn elapsed(now: u64, then_at: u64) -> (r: u64)
    ensures
        r == since(now, then_at),
{
    if now >= then_at {
        now - then_at
    } else {
        0
    }
}

impl Sweep {
    /// Whether a key in this state is let go.
    ///
    /// An ordinary key is stuck when it has not been repeated for a while. A modifier is stuck when
    /// nothing at all has come from the client, or when it has been held for long.
    pub open spec fn takes(self, state: KeyState) -> bool {
        match self {
            Sweep::All => true,
            Sweep::Ordinary => !state.is_modifier,
            Sweep::Stuck { now, idle_ms } => if state.is_modifier {
                idle_ms > INPUT_IDLE_LIMIT_MS || since(now, state.first_pressed) > MODIFIER_HOLD_LIMIT
            } else {
                since(now, state.last_event) > KEY_IDLE_LIMIT
            },
        }
    }

    /// Whether a key in this state is let go.
    fn lets_go(&self, state: &KeyState) -> (r: bool)
        ensures
            r == self.takes(*state),
    {
        match self {
            Sweep::All => true,
            Sweep::Ordinary => !state.is_modifier,
            Sweep::Stuck { now, idle_ms } => if state.is_modifier {
                *idle_ms > INPUT_IDLE_LIMIT_MS || elapsed(*now, state.first_pressed)
                    > MODIFIER_HOLD_LIMIT
            } else {
                elapsed(*now, state.last_event) > KEY_IDLE_LIMIT
            },
        }
    }
}

/// The keys that are let go.
pub open spec fn swept(held: Map<u16, KeyState>, how: Sweep) -> Set<u16> {
    Set::new(|key: u16| held.contains_key(key) && how.takes(held[key]))
}

/// The keys that stay held.
pub open spec fn left_held(held: Map<u16, KeyState>, how: Sweep) -> Map<u16, KeyState> {
    held.remove_keys(swept(held, how))
}

/// Those of the first `n` entries that stay.
spec fn kept_of(entries: Seq<HeldKey>, how: Sweep, n: int) -> Seq<HeldKey>
    decreases n,
{
    if n <= 0 {
        Seq::empty()
    } else if how.takes(entries[n - 1].state) {
        kept_of(entries, how, n - 1)
    } else {
        kept_of(entries, how, n - 1).push(entries[n - 1])
    }
}

/// What is posted for those of the first `n` entries that are let go.
spec fn posted_of(entries: Seq<HeldKey>, how: Sweep, n: int) -> Seq<Posted>
    decreases n,
{
    if n <= 0 {
        Seq::empty()
    } else if how.takes(entries[n - 1].state) {
        posted_of(entries, how, n - 1).push(key_up(entries[n - 1].key))
    } else {
        posted_of(entries, how, n - 1)
    }
}

/// Whether the entry of number `k` is among the first `n` and stays.
spec fn stays(entries: Seq<HeldKey>, how: Sweep, n: int, k: int) -> bool {
    0 <= k < n && !how.takes(entries[k].state)
}

/// Whether the entry of number `k` is among the first `n` and is let go.
spec fn goes(entries: Seq<HeldKey>, how: Sweep, n: int, k: int) -> bool {
    0 <= k < n && how.takes(entries[k].state)
}

/// Whether the entry is among the first `n` and stays.
spec fn is_kept(entries: Seq<HeldKey>, how: Sweep, n: int, entry: HeldKey) -> bool {
    exists|k: int| #[trigger] stays(entries, how, n, k) && entries[k] == entry
}

/// Whether the event is that of one of the first `n` entries, which is let go.
spec fn is_posted(entries: Seq<HeldKey>, how: Sweep, n: int, event: Posted) -> bool {
    exists|k: int| #[trigger] goes(entries, how, n, k) && key_up(entries[k].key) == event
}

proof fn lemma_kept(entries: Seq<HeldKey>, how: Sweep, n: int)
    requires
        distinct(entries),
        0 <= n <= entries.len(),
    ensures
        distinct(kept_of(entries, how, n)),
        forall|a: int|
            0 <= a < kept_of(entries, how, n).len() ==> is_kept(
                entries,
                how,
                n,
                #[trigger] kept_of(entries, how, n)[a],
            ),
        forall|k: int| #[trigger]
            stays(entries, how, n, k) ==> exists|a: int|
                0 <= a < kept_of(entries, how, n).len() && #[trigger] kept_of(entries, how, n)[a]
                    == entries[k],
    decreases n,
{
    if n > 0 {
        lemma_kept(entries, how, n - 1);
        let before = kept_of(entries, how, n - 1);
        let after = kept_of(entries, how, n);
        assert forall|a: int| 0 <= a < after.len() implies is_kept(
            entries,
            how,
            n,
            #[trigger] after[a],
        ) by {
            if a < before.len() {
                assert(before[a] == after[a]);
                let k = choose|k: int| #[trigger]
                    stays(entries, how, n - 1, k) && entries[k] == before[a];
                assert(stays(entries, how, n, k));
            } else {
                assert(stays(entries, how, n, n - 1));
            }
        }
        assert forall|k: int| #[trigger] stays(entries, how, n, k) implies exists|a: int|
            0 <= a < after.len() && #[trigger] after[a] == entries[k] by {
            if k < n - 1 {
                assert(stays(entries, how, n - 1, k));
                let a = choose|a: int| 0 <= a < before.len() && #[trigger] before[a] == entries[k];
                assert(after[a] == entries[k]);
            } else {
                assert(after[before.len() as int] == entries[k]);
            }
        }
        assert forall|a: int, b: int|
            0 <= a < after.len() && 0 <= b < after.len() && (#[trigger] after[a]).key == (
            #[trigger] after[b]).key implies a == b by {
            if a < before.len() && b < before.len() {
                assert(before[a].key == before[b].key);
            } else if a < before.len() || b < before.len() {
                let c = if a < before.len() {
                    a
                } else {
                    b
                };
                assert(before[c] == after[c]);
                assert(is_kept(entries, how, n - 1, before[c]));
                let k = choose|k: int| #[trigger]
                    stays(entries, how, n - 1, k) && entries[k] == before[c];
                assert(entries[k].key == entries[n - 1].key);
            }
        }
    }
}

proof fn lemma_posted(entries: Seq<HeldKey>, how: Sweep, n: int)
    requires
        distinct(entries),
        0 <= n <= entries.len(),
    ensures
        forall|a: int|
            0 <= a < posted_of(entries, how, n).len() ==> is_posted(
                entries,
                how,
                n,
                #[trigger] posted_of(entries, how, n)[a],
            ),
        forall|k: int| #[trigger]
            goes(entries, how, n, k) ==> exists|a: int|
                0 <= a < posted_of(entries, how, n).len() && #[trigger] posted_of(entries, how, n)[a]
                    == key_up(entries[k].key),
        forall|a: int, b: int|
            0 <= a < posted_of(entries, how, n).len() && 0 <= b < posted_of(entries, how, n).len()
                && #[trigger] posted_of(entries, how, n)[a] == #[trigger] posted_of(entries, how, n)[b]
                ==> a == b,
    decreases n,
{
    if n > 0 {
        lemma_posted(entries, how, n - 1);
        let before = posted_of(entries, how, n - 1);
        let after = posted_of(entries, how, n);
        assert forall|a: int| 0 <= a < after.len() implies is_posted(
            entries,
            how,
            n,
            #[trigger] after[a],
        ) by {
            if a < before.len() {
                assert(before[a] == after[a]);
                let k = choose|k: int| #[trigger]
                    goes(entries, how, n - 1, k) && key_up(entries[k].key) == before[a];
                assert(goes(entries, how, n, k));
            } else {
                assert(goes(entries, how, n, n - 1));
            }
        }
        assert forall|k: int| #[trigger] goes(entries, how, n, k) implies exists|a: int|
            0 <= a < after.len() && #[trigger] after[a] == key_up(entries[k].key) by {
            if k < n - 1 {
                assert(goes(entries, how, n - 1, k));
                let a = choose|a: int|
                    0 <= a < before.len() && #[trigger] before[a] == key_up(entries[k].key);
                assert(after[a] == key_up(entries[k].key));
            } else {
                assert(after[before.len() as int] == key_up(entries[k].key));
            }
        }
        assert forall|a: int, b: int|
            0 <= a < after.len() && 0 <= b < after.len() && #[trigger] after[a] == #[trigger] after[b] implies a
            == b by {
            if a < before.len() && b < before.len() {
                assert(before[a] == before[b]);
            } else if a < before.len() || b < before.len() {
                let c = if a < before.len() {
                    a
                } else {
                    b
                };
                assert(before[c] == after[c]);
                assert(is_posted(entries, how, n - 1, before[c]));
                let k = choose|k: int| #[trigger]
                    goes(entries, how, n - 1, k) && key_up(entries[k].key) == before[c];
                assert(entries[k].key == entries[n - 1].key);
            }
        }
    }
}

proof fn lemma_swept(entries: Seq<HeldKey>, how: Sweep)
    requires
        distinct(entries),
    ensures
        ({
            let n = entries.len() as int;
            &&& distinct(kept_of(entries, how, n))
            &&& key_map(kept_of(entries, how, n)) == left_held(key_map(entries), how)
            &&& releases(posted_of(entries, how, n), swept(key_map(entries), how))
        }),
{
    let n = entries.len() as int;
    let after = kept_of(entries, how, n);
    let posted = posted_of(entries, how, n);
    let gone = swept(key_map(entries), how);
    lemma_kept(entries, how, n);
    lemma_posted(entries, how, n);
    assert forall|key: u16| has_key(after, key) <==> has_key(entries, key) && !how.takes(
        entry_of(entries, key),
    ) by {
        if has_key(after, key) {
            let a = choose|a: int| 0 <= a < after.len() && (#[trigger] after[a]).key == key;
            let k = choose|k: int| #[trigger] stays(entries, how, n, k) && entries[k] == after[a];
            lemma_entry(entries, k);
        }
        if has_key(entries, key) && !how.takes(entry_of(entries, key)) {
            let k = choose|k: int| 0 <= k < entries.len() && (#[trigger] entries[k]).key == key;
            lemma_entry(entries, k);
            assert(stays(entries, how, n, k));
            let a = choose|a: int| 0 <= a < after.len() && #[trigger] after[a] == entries[k];
            assert(after[a].key == key);
        }
    }
    assert forall|key: u16| has_key(after, key) implies entry_of(after, key) == entry_of(entries, key) by {
        let a = choose|a: int| 0 <= a < after.len() && (#[trigger] after[a]).key == key;
        lemma_entry(after, a);
        let k = choose|k: int| #[trigger] stays(entries, how, n, k) && entries[k] == after[a];
        lemma_entry(entries, k);
    }
    assert(key_map(after) =~= left_held(key_map(entries), how));
    assert forall|key: u16| #[trigger] gone.contains(key) implies exists|a: int|
        0 <= a < posted.len() && #[trigger] posted[a] == key_up(key) by {
        let k = choose|k: int| 0 <= k < entries.len() && (#[trigger] entries[k]).key == key;
        lemma_entry(entries, k);
        assert(goes(entries, how, n, k));
        let a = choose|a: int| 0 <= a < posted.len() && #[trigger] posted[a] == key_up(entries[k].key);
        assert(posted[a] == key_up(key));
    }
    assert forall|a: int| 0 <= a < posted.len() implies (#[trigger] posted[a] matches Posted::Key {
        keycode,
        ..
    } && posted[a] == key_up(keycode) && gone.contains(keycode)) by {
        let k = choose|k: int| #[trigger] goes(entries, how, n, k) && key_up(entries[k].key) == posted[a];
        lemma_entry(entries, k);
    }
}

impl HeldKeys {
    /// Lets keys go, and gives a key-up event for each.
    pub fn sweep(&mut self, how: Sweep) -> (r: Vec<Posted>)
        requires
            old(self).wf(),
        ensures
            final(self).wf(),
            final(self)@ == left_held(old(self)@, how),
            releases(r@, swept(old(self)@, how)),
    {
        let ghost before = self.entries@;
        let mut kept: Vec<HeldKey> = Vec::new();
        let mut posted: Vec<Posted> = Vec::new();
        let mut i: usize = 0;
        while i < self.entries.len()
            invariant
                i <= before.len(),
                self.entries@ == before,
                kept@ == kept_of(before, how, i as int),
                posted@ == posted_of(before, how, i as int),
            decreases before.len() - i,
        {
            let entry = self.entries[i];
            if how.lets_go(&entry.state) {
                posted.push(
                    Posted::Key { keycode: entry.key, down: false, flags: 0, unicode: None },
                );
            } else {
                kept.push(entry);
            }
            i = i + 1;
        }
        self.entries = kept;
        proof {
            lemma_swept(before, how);
        }
        posted
    }
}

/// The modifiers without those whose keys are let go.
pub open spec fn without(modifiers: Modifiers, keys: Set<u16>) -> Modifiers {
    Modifiers {
        left_shift: modifiers.left_shift && !keys.contains(0x38),
        right_shift: modifiers.right_shift && !keys.contains(0x3C),
        left_ctrl: modifiers.left_ctrl && !keys.contains(0x3B),
        right_ctrl: modifiers.right_ctrl && !keys.contains(0x3E),
        left_alt: modifiers.left_alt && !keys.contains(0x3A),
        right_alt: modifiers.right_alt && !keys.contains(0x3D),
        left_cmd: modifiers.left_cmd && !keys.contains(0x37),
        right_cmd: modifiers.right_cmd && !keys.contains(0x36),
        caps_lock: modifiers.caps_lock && !keys.contains(0x39),
    }
}

/// The keyboard and the mouse of a client.
#[derive(Debug, Clone)]
pub struct MacInputHandler {
    pub current_x: i32,
    pub current_y: i32,
    pub left_down: bool,
    pub right_down: bool,
    pub middle_down: bool,
    pub pressed_keys: HeldKeys,
    /// When the last input came, in milliseconds.
    pub last_global_input: u64,
    pub modifiers: Modifiers,
}

/// What is posted for a key, where the modifiers are those after it.
pub open spec fn key_event(key: u16, down: bool, modifiers: Modifiers) -> Posted {
    Posted::Key {
        keycode: key,
        down,
        flags: if numpad(key) {
            modifiers.flags() | K_CG_EVENT_FLAG_MASK_NUMERIC_PAD
        } else {
            modifiers.flags()
        },
        unicode: match punctuation(key, modifiers.shift(), modifiers.shortcut()) {
            Some(c) => Some(c as u16),
            None => None,
        },
    }
}

/// What is posted for a character: a press and a release, so that no key stays down.
pub open spec fn unicode_events(ch: u16, modifiers: Modifiers) -> Seq<Posted> {
    seq![
        Posted::Key { keycode: 0, down: true, flags: modifiers.flags(), unicode: Some(ch) },
        Posted::Key { keycode: 0, down: false, flags: modifiers.flags(), unicode: Some(ch) },
    ]
}

impl MacInputHandler {
    /// Whether the held keys are in order, and those are noted as modifiers that are.
    pub open spec fn wf(self) -> bool {
        &&& self.pressed_keys.wf()
        &&& forall|key: u16| #[trigger]
            self.pressed_keys@.contains_key(key) ==> self.pressed_keys@[key].is_modifier == modifier(key)
    }

    /// Whether nothing is held.
    pub open spec fn at_rest(self) -> bool {
        &&& self.pressed_keys@ == Map::<u16, KeyState>::empty()
        &&& self.modifiers == Modifiers::none()
        &&& !self.left_down && !self.right_down && !self.middle_down
    }

    /// Whether `self` has the mouse of `old`, where it is and what it holds.
    pub open spec fn same_mouse(self, old: MacInputHandler) -> bool {
        &&& self.current_x == old.current_x
        &&& self.current_y == old.current_y
        &&& self.left_down == old.left_down
        &&& self.right_down == old.right_down
        &&& self.middle_down == old.middle_down
    }

    /// Whether `self` is `old` after the keyboard has done something, for which this was posted.
    pub open spec fn typed(
        self,
        old: MacInputHandler,
        event: KeyboardEvent,
        now: u64,
        now_ms: u64,
        posted: Seq<Posted>,
    ) -> bool {
        &&& self.same_mouse(old)
        &&& match event {
            KeyboardEvent::Pressed { code, extended } => {
                let key = mac_key(code, extended);
                let held = old.pressed_keys@;
                &&& posted == seq![key_event(key, true, old.modifiers.after(key, true))]
                &&& self.modifiers == old.modifiers.after(key, true)
                &&& self.last_global_input == now_ms
                &&& self.pressed_keys@ == held.insert(
                    key,
                    if held.contains_key(key) {
                        KeyState { last_event: now, ..held[key] }
                    } else {
                        KeyState { first_pressed: now, last_event: now, is_modifier: modifier(key) }
                    },
                )
            },
            KeyboardEvent::Released { code, extended } => {
                let key = mac_key(code, extended);
                &&& posted == seq![key_event(key, false, old.modifiers.after(key, false))]
                &&& self.modifiers == old.modifiers.after(key, false)
                &&& self.last_global_input == now_ms
                &&& self.pressed_keys@ == old.pressed_keys@.remove(key)
            },
            KeyboardEvent::UnicodePressed(ch) => {
                &&& posted == unicode_events(ch, old.modifiers)
                &&& self.modifiers == old.modifiers
                &&& self.last_global_input == now_ms
                &&& self.pressed_keys@ == old.pressed_keys@
            },
            KeyboardEvent::UnicodeReleased(_) => posted.len() == 0 && self == old,
            KeyboardEvent::Synchronize => {
                &&& releases(posted, swept(old.pressed_keys@, Sweep::Ordinary))
                &&& self.modifiers == old.modifiers
                &&& self.last_global_input == old.last_global_input
                &&& self.pressed_keys@ == left_held(old.pressed_keys@, Sweep::Ordinary)
            },
        }
    }

    /// Whether `self` is `old` after a look at the keys, for which this was posted.
    pub open spec fn watched(
        self,
        old: MacInputHandler,
        now: u64,
        now_ms: u64,
        posted: Seq<Posted>,
    ) -> bool {
        let how = Sweep::Stuck { now, idle_ms: since(now_ms, old.last_global_input) as u64 };
        let gone = swept(old.pressed_keys@, how);
        &&& releases(posted, gone)
        &&& self.pressed_keys@ == left_held(old.pressed_keys@, how)
        &&& self.modifiers == without(old.modifiers, gone)
        &&& self.same_mouse(old)
        &&& self.last_global_input == old.last_global_input
    }

    /// Whether `self` is `old` after the mouse has done something, for which this was posted.
    pub open spec fn moused(
        self,
        old: MacInputHandler,
        event: MouseEvent,
        now_ms: u64,
        posted: Option<Posted>,
    ) -> bool {
        &&& self.pressed_keys == old.pressed_keys
        &&& self.modifiers == old.modifiers
        &&& self.last_global_input == if event is Other {
            old.last_global_input
        } else {
            now_ms
        }
        &&& self.left_down == match event {
            MouseEvent::LeftPressed => true,
            MouseEvent::LeftReleased => false,
            _ => old.left_down,
        }
        &&& self.right_down == match event {
            MouseEvent::RightPressed => true,
            MouseEvent::RightReleased => false,
            _ => old.right_down,
        }
        &&& self.middle_down == match event {
            MouseEvent::MiddlePressed => true,
            MouseEvent::MiddleReleased => false,
            _ => old.middle_down,
        }
        &&& (self.current_x, self.current_y) == match event {
            MouseEvent::Moved { x, y } => (x, y),
            _ => (old.current_x, old.current_y),
        }
        &&& posted == posted_for_mouse(event, old)
    }

    /// A client that holds nothing.
    pub fn new(now_ms: u64) -> (r: MacInputHandler)
        ensures
            r.wf(),
            r.at_rest(),
            r.current_x == 0,
            r.current_y == 0,
            r.last_global_input == now_ms,
    {
        MacInputHandler {
            current_x: 0,
            current_y: 0,
            left_down: false,
            right_down: false,
            middle_down: false,
            pressed_keys: HeldKeys::new(),
            last_global_input: now_ms,
            modifiers: Modifiers::new(),
        }
    }

    /// The flags that go with an event now.
    pub fn current_modifier_flags(&self) -> (r: u64)
        ensures
            r == self.modifiers.flags(),
    {
        self.modifiers.event_flags()
    }

    /// Notes a key and gives what is posted for it.
    fn post_keyboard_event(&mut self, key: u16, down: bool, now_ms: u64) -> (r: Posted)
        ensures
            *final(self) == (MacInputHandler {
                last_global_input: now_ms,
                modifiers: old(self).modifiers.after(key, down),
                ..*old(self)
            }),
            r == key_event(key, down, old(self).modifiers.after(key, down)),
    {
        self.last_global_input = now_ms;
        self.modifiers.note(key, down);
        let plain: u64 = self.modifiers.event_flags();
        let flags: u64 = if is_numpad_key(key) {
            plain | K_CG_EVENT_FLAG_MASK_NUMERIC_PAD
        } else {
            plain
        };
        let m = self.modifiers;
        let shortcut = m.left_ctrl || m.right_ctrl || m.left_alt || m.right_alt || m.left_cmd
            || m.right_cmd;
        let shift = m.left_shift || m.right_shift;
        let unicode = get_unicode_override(key, shift, shortcut);
        Posted::Key { keycode: key, down, flags, unicode }
    }

    /// What is posted when the keyboard does something.
    ///
    /// `now` is in nanoseconds, `now_ms` in milliseconds.
    pub fn keyboard(&mut self, event: KeyboardEvent, now: u64, now_ms: u64) -> (r: Vec<Posted>)
        requires
            old(self).wf(),
        ensures
            final(self).wf(),
            final(self).typed(*old(self), event, now, now_ms, r@),
    {
        let mut posted: Vec<Posted> = Vec::new();
        match event {
            KeyboardEvent::Pressed { code, extended } => {
                let key: u16 = rdp_scancode_to_mac(code, extended);
                self.pressed_keys.press(key, is_mac_modifier(key), now);
                let event = self.post_keyboard_event(key, true, now_ms);
                posted.push(event);
                assert(posted@ =~= seq![event]);
            },
            KeyboardEvent::Released { code, extended } => {
                let key: u16 = rdp_scancode_to_mac(code, extended);
                self.pressed_keys.release(key);
                let event = self.post_keyboard_event(key, false, now_ms);
                posted.push(event);
                assert(posted@ =~= seq![event]);
            },
            KeyboardEvent::UnicodePressed(ch) => {
                self.last_global_input = now_ms;
                let flags: u64 = self.modifiers.event_flags();
                posted.push(Posted::Key { keycode: 0, down: true, flags, unicode: Some(ch) });
                posted.push(Posted::Key { keycode: 0, down: false, flags, unicode: Some(ch) });
                assert(posted@ =~= unicode_events(ch, old(self).modifiers));
            },
            KeyboardEvent::UnicodeReleased(_) => {},
            KeyboardEvent::Synchronize => {
                posted = self.pressed_keys.sweep(Sweep::Ordinary);
            },
        }
        posted
    }

    /// Lets go of all keys.
    pub fn release_all_keys(&mut self) -> (r: Vec<Posted>)
        requires
            old(self).wf(),
        ensures
            final(self).wf(),
            releases(r@, old(self).pressed_keys@.dom()),
            final(self).pressed_keys@ == Map::<u16, KeyState>::empty(),
            final(self).modifiers == Modifiers::none(),
            final(self).current_x == old(self).current_x,
            final(self).current_y == old(self).current_y,
            final(self).left_down == old(self).left_down,
            final(self).right_down == old(self).right_down,
            final(self).middle_down == old(self).middle_down,
            final(self).last_global_input == old(self).last_global_input,
    {
        self.modifiers = Modifiers::new();
        let posted = self.pressed_keys.sweep(Sweep::All);
        proof {
            let held = old(self).pressed_keys@;
            assert(swept(held, Sweep::All) =~= held.dom());
            assert(left_held(held, Sweep::All) =~= Map::<u16, KeyState>::empty());
        }
        posted
    }

    /// Lets go of keys that are stuck, as they are when a client's release of them was lost.
    pub fn watchdog(&mut self, now: u64, now_ms: u64) -> (r: Vec<Posted>)
        requires
            old(self).wf(),
        ensures
            final(self).wf(),
            final(self).watched(*old(self), now, now_ms, r@),
    {
        let idle_ms: u64 = elapsed(now_ms, self.last_global_input);
        let how = Sweep::Stuck { now, idle_ms };
        let posted = self.pressed_keys.sweep(how);
        let ghost gone = swept(old(self).pressed_keys@, how);
        let ghost done = Set::<u16>::empty();
        let ghost before = self.modifiers;
        assert(without(before, done) == before);
        let mut i: usize = 0;
        while i < posted.len()
            invariant
                i <= posted@.len(),
                releases(posted@, gone),
                self.modifiers == without(before, done),
                *self == (MacInputHandler { modifiers: self.modifiers, ..*self }),
                forall|key: u16| #[trigger]
                    done.contains(key) <==> exists|k: int| 0 <= k < i && #[trigger] posted@[k] == key_up(key),
                self.pressed_keys@ == left_held(old(self).pressed_keys@, how),
                self.pressed_keys.wf(),
                self.current_x == old(self).current_x,
                self.current_y == old(self).current_y,
                self.left_down == old(self).left_down,
                self.right_down == old(self).right_down,
                self.middle_down == old(self).middle_down,
                self.last_global_input == old(self).last_global_input,
            decreases posted@.len() - i,
        {
            let ghost earlier = done;
            if let Posted::Key { keycode, .. } = posted[i] {
                self.modifiers.set(keycode, false);
                proof {
                    done = done.insert(keycode);
                    assert(posted@[i as int] == key_up(keycode));
                    assert forall|key: u16| #[trigger] done.contains(key) <==> exists|k: int|
                        0 <= k < i + 1 && #[trigger] posted@[k] == key_up(key) by {
                        if done.contains(key) {
                            if key == keycode {
                                assert(posted@[i as int] == key_up(key));
                            } else {
                                assert(earlier.contains(key));
                            }
                        }
                        if exists|k: int| 0 <= k < i + 1 && #[trigger] posted@[k] == key_up(key) {
                            let k = choose|k: int| 0 <= k < i + 1 && #[trigger] posted@[k] == key_up(key);
                            if k < i {
                                assert(earlier.contains(key));
                            }
                        }
                    }
                }
            }
            i = i + 1;
        }
        assert(done =~= gone) by {
            assert forall|key: u16| done.contains(key) <==> gone.contains(key) by {
                if done.contains(key) {
                    let k = choose|k: int| 0 <= k < posted@.len() && #[trigger] posted@[k] == key_up(key);
                    assert(posted@[k] matches Posted::Key { keycode, .. } && gone.contains(keycode));
                }
            }
        }
        posted
    }

    /// Where the mouse was.
    fn at(&self) -> (r: Position)
        ensures
            r == (Position::At { x: self.current_x, y: self.current_y }),
    {
        Position::At { x: self.current_x, y: self.current_y }
    }

    /// What is posted when the mouse does something.
    ///
    /// While a button is down, moving the mouse drags with it.
    pub fn mouse(&mut self, event: MouseEvent, now_ms: u64) -> (r: Option<Posted>)
        requires
            old(self).wf(),
        ensures
            final(self).wf(),
            final(self).moused(*old(self), event, now_ms, r),
    {
        let at = self.at();
        let posted = match event {
            MouseEvent::Moved { x, y } => {
                self.current_x = x;
                self.current_y = y;
                let (event_type, button): (u32, u32) = if self.left_down {
                    (K_CG_EVENT_LEFT_MOUSE_DRAGGED, K_CG_MOUSE_BUTTON_LEFT)
                } else if self.right_down {
                    (K_CG_EVENT_RIGHT_MOUSE_DRAGGED, K_CG_MOUSE_BUTTON_RIGHT)
                } else if self.middle_down {
                    (K_CG_EVENT_OTHER_MOUSE_DRAGGED, K_CG_MOUSE_BUTTON_CENTER)
                } else {
                    (K_CG_EVENT_MOUSE_MOVED, K_CG_MOUSE_BUTTON_LEFT)
                };
                Posted::Mouse { event_type, button, position: Position::Moved }
            },
            MouseEvent::LeftPressed => {
                self.left_down = true;
                Posted::Mouse {
                    event_type: K_CG_EVENT_LEFT_MOUSE_DOWN,
                    button: K_CG_MOUSE_BUTTON_LEFT,
                    position: at,
                }
            },
            MouseEvent::LeftReleased => {
                self.left_down = false;
                Posted::Mouse {
                    event_type: K_CG_EVENT_LEFT_MOUSE_UP,
                    button: K_CG_MOUSE_BUTTON_LEFT,
                    position: at,
                }
            },
            MouseEvent::RightPressed => {
                self.right_down = true;
                Posted::Mouse {
                    event_type: K_CG_EVENT_RIGHT_MOUSE_DOWN,
                    button: K_CG_MOUSE_BUTTON_RIGHT,
                    position: at,
                }
            },
            MouseEvent::RightReleased => {
                self.right_down = false;
                Posted::Mouse {
                    event_type: K_CG_EVENT_RIGHT_MOUSE_UP,
                    button: K_CG_MOUSE_BUTTON_RIGHT,
                    position: at,
                }
            },
            MouseEvent::MiddlePressed => {
                self.middle_down = true;
                Posted::Mouse {
                    event_type: K_CG_EVENT_OTHER_MOUSE_DOWN,
                    button: K_CG_MOUSE_BUTTON_CENTER,
                    position: at,
                }
            },
            MouseEvent::MiddleReleased => {
                self.middle_down = false;
                Posted::Mouse {
                    event_type: K_CG_EVENT_OTHER_MOUSE_UP,
                    button: K_CG_MOUSE_BUTTON_CENTER,
                    position: at,
                }
            },
            MouseEvent::VerticalScroll { value } => {
                let lines: i32 = (value / 40) as i32;
                Posted::Scroll { lines }
            },
            MouseEvent::Other => {
                return None;
            },
        };
        self.last_global_input = now_ms;
        Some(posted)
    }

    /// Lets go of all keys and buttons, as the end of a session does.
    pub fn cleanup(&mut self) -> (r: Vec<Posted>)
        requires
            old(self).wf(),
        ensures
            final(self).wf(),
            final(self).at_rest(),
            final(self).current_x == old(self).current_x,
            final(self).current_y == old(self).current_y,
            exists|keys: Seq<Posted>| #[trigger]
                releases(keys, old(self).pressed_keys@.dom()) && r@ == keys + button_releases(*old(self)),
    {
        let mut posted = self.release_all_keys();
        let ghost keys = posted@;
        let at = self.at();
        if self.left_down {
            self.left_down = false;
            posted.push(
                Posted::Mouse {
                    event_type: K_CG_EVENT_LEFT_MOUSE_UP,
                    button: K_CG_MOUSE_BUTTON_LEFT,
                    position: at,
                },
            );
        }
        if self.right_down {
            self.right_down = false;
            posted.push(
                Posted::Mouse {
                    event_type: K_CG_EVENT_RIGHT_MOUSE_UP,
                    button: K_CG_MOUSE_BUTTON_RIGHT,
                    position: at,
                },
            );
        }
        if self.middle_down {
            self.middle_down = false;
            posted.push(
                Posted::Mouse {
                    event_type: K_CG_EVENT_OTHER_MOUSE_UP,
                    button: K_CG_MOUSE_BUTTON_CENTER,
                    position: at,
                },
            );
        }
        assert(posted@ =~= keys + button_releases(*old(self)));
        assert(releases(keys, old(self).pressed_keys@.dom()));
        posted
    }
}

/// One event or none.
pub open spec fn when(holds: bool, event: Posted) -> Seq<Posted> {
    if holds {
        seq![event]
    } else {
        Seq::empty()
    }
}

/// What is posted to let go of the buttons that are down.
pub open spec fn button_releases(input: MacInputHandler) -> Seq<Posted> {
    let position = Position::At { x: input.current_x, y: input.current_y };
    when(
        input.left_down,
        Posted::Mouse {
            event_type: K_CG_EVENT_LEFT_MOUSE_UP,
            button: K_CG_MOUSE_BUTTON_LEFT,
            position,
        },
    ) + when(
        input.right_down,
        Posted::Mouse {
            event_type: K_CG_EVENT_RIGHT_MOUSE_UP,
            button: K_CG_MOUSE_BUTTON_RIGHT,
            position,
        },
    ) + when(
        input.middle_down,
        Posted::Mouse {
            event_type: K_CG_EVENT_OTHER_MOUSE_UP,
            button: K_CG_MOUSE_BUTTON_CENTER,
            position,
        },
    )
}

/// What is posted for the mouse.
pub open spec fn posted_for_mouse(event: MouseEvent, input: MacInputHandler) -> Option<Posted> {
    let position = Position::At { x: input.current_x, y: input.current_y };
    match event {
        MouseEvent::Moved { .. } => Some(
            if input.left_down {
                Posted::Mouse {
                    event_type: K_CG_EVENT_LEFT_MOUSE_DRAGGED,
                    button: K_CG_MOUSE_BUTTON_LEFT,
                    position: Position::Moved,
                }
            } else if input.right_down {
                Posted::Mouse {
                    event_type: K_CG_EVENT_RIGHT_MOUSE_DRAGGED,
                    button: K_CG_MOUSE_BUTTON_RIGHT,
                    position: Position::Moved,
                }
            } else if input.middle_down {
                Posted::Mouse {
                    event_type: K_CG_EVENT_OTHER_MOUSE_DRAGGED,
                    button: K_CG_MOUSE_BUTTON_CENTER,
                    position: Position::Moved,
                }
            } else {
                Posted::Mouse {
                    event_type: K_CG_EVENT_MOUSE_MOVED,
                    button: K_CG_MOUSE_BUTTON_LEFT,
                    position: Position::Moved,
                }
            },
        ),
        MouseEvent::LeftPressed => Some(
            Posted::Mouse {
                event_type: K_CG_EVENT_LEFT_MOUSE_DOWN,
                button: K_CG_MOUSE_BUTTON_LEFT,
                position,
            },
        ),
        MouseEvent::LeftReleased => Some(
            Posted::Mouse {
                event_type: K_CG_EVENT_LEFT_MOUSE_UP,
                button: K_CG_MOUSE_BUTTON_LEFT,
                position,
            },
        ),
        MouseEvent::RightPressed => Some(
            Posted::Mouse {
                event_type: K_CG_EVENT_RIGHT_MOUSE_DOWN,
                button: K_CG_MOUSE_BUTTON_RIGHT,
                position,
            },
        ),
        MouseEvent::RightReleased => Some(
            Posted::Mouse {
                event_type: K_CG_EVENT_RIGHT_MOUSE_UP,
                button: K_CG_MOUSE_BUTTON_RIGHT,
                position,
            },
        ),
        MouseEvent::MiddlePressed => Some(
            Posted::Mouse {
                event_type: K_CG_EVENT_OTHER_MOUSE_DOWN,
                button: K_CG_MOUSE_BUTTON_CENTER,
                position,
            },
        ),
        MouseEvent::MiddleReleased => Some(
            Posted::Mouse {
                event_type: K_CG_EVENT_OTHER_MOUSE_UP,
                button: K_CG_MOUSE_BUTTON_CENTER,
                position,
            },
        ),
        MouseEvent::VerticalScroll { value } => Some(Posted::Scroll { lines: scroll_lines(value) }),
        MouseEvent::Other => None,
    }
}

/// Lines that a turn of the wheel scrolls: three for a notch of 120, towards zero.
pub open spec fn scroll_lines(value: i16) -> i32 {
    if value >= 0 {
        (value as int / 40) as i32
    } else {
        -((-(value as int)) / 40) as i32
    }
}

/// While the left button is down, moving the mouse drags with it, whatever else is down.
pub proof fn lemma_left_drag(input: MacInputHandler, x: i32, y: i32)
    requires
        input.left_down,
    ensures
        posted_for_mouse(MouseEvent::Moved { x, y }, input) == Some(
            Posted::Mouse {
                event_type: 6,
                button: K_CG_MOUSE_BUTTON_LEFT,
                position: Position::Moved,
            },
        ),
{
}

/// No key stays stuck: after a look at the keys, an ordinary one that is still held was repeated
/// within a second and a half, and modifiers are held only while there is input and for no longer
/// than a quarter of a minute.
pub proof fn lemma_nothing_stuck(held: Map<u16, KeyState>, now: u64, idle_ms: u64, key: u16)
    requires
        left_held(held, Sweep::Stuck { now, idle_ms }).contains_key(key),
    ensures
        held.contains_key(key),
        !held[key].is_modifier ==> since(now, held[key].last_event) <= KEY_IDLE_LIMIT,
        held[key].is_modifier ==> idle_ms <= INPUT_IDLE_LIMIT_MS && since(now, held[key].first_pressed)
            <= MODIFIER_HOLD_LIMIT,
{
}

/// When a client brings its keyboard in line, only modifiers stay held.
pub proof fn lemma_only_modifiers_left(input: MacInputHandler, key: u16)
    requires
        input.wf(),
        left_held(input.pressed_keys@, Sweep::Ordinary).contains_key(key),
    ensures
        modifier(key),
{
}

/// Pressing a key and releasing it leaves the others as they were held.
pub proof fn lemma_press_release(held: Map<u16, KeyState>, key: u16, state: KeyState)
    ensures
        held.insert(key, state).remove(key) == held.remove(key),
{
    assert(held.insert(key, state).remove(key) =~= held.remove(key));
}

/// Shortcuts stay shortcuts: no character goes with a key while control, option or command is down.
pub proof fn lemma_shortcut_without_character(key: u16, down: bool, modifiers: Modifiers)
    requires
        modifiers.shortcut(),
    ensures
        key_event(key, down, modifiers) matches Posted::Key { unicode, .. } && unicode is None,
{
}

/// Pressing and releasing a modifier other than caps lock leaves it up, and the others as they were.
pub proof fn lemma_modifier_comes_up(modifiers: Modifiers, key: u16)
    requires
        key != 0x39,
    ensures
        modifiers.after(key, true).after(key, false) == modifiers.with(key, false),
{
}

/// Each modifier has a bit of its own in the flags: 16 for caps lock, 17 for shift, 18 for control, 19 for
/// option and 20 for command. A bit is set exactly while a key of its kind is down, and there are no others.
pub proof fn lemma_flag_bits(modifiers: Modifiers)
    ensures
        modifiers.flags() & 0x0001_0000 != 0 <==> modifiers.caps_lock,
        modifiers.flags() & 0x0002_0000 != 0 <==> modifiers.left_shift || modifiers.right_shift,
        modifiers.flags() & 0x0004_0000 != 0 <==> modifiers.left_ctrl || modifiers.right_ctrl,
        modifiers.flags() & 0x0008_0000 != 0 <==> modifiers.left_alt || modifiers.right_alt,
        modifiers.flags() & 0x0010_0000 != 0 <==> modifiers.left_cmd || modifiers.right_cmd,
        modifiers.flags() & !0x001F_0000u64 == 0,
{
    let shift: u64 = if modifiers.left_shift || modifiers.right_shift {
        0x0002_0000
    } else {
        0
    };
    let ctrl: u64 = if modifiers.left_ctrl || modifiers.right_ctrl {
        0x0004_0000
    } else {
        0
    };
    let alt: u64 = if modifiers.left_alt || modifiers.right_alt {
        0x0008_0000
    } else {
        0
    };
    let cmd: u64 = if modifiers.left_cmd || modifiers.right_cmd {
        0x0010_0000
    } else {
        0
    };
    let caps: u64 = if modifiers.caps_lock {
        0x0001_0000
    } else {
        0
    };
    assert(modifiers.flags() == shift | ctrl | alt | cmd | caps);
    assert({
        let flags = shift | ctrl | alt | cmd | caps;
        &&& flags & 0x0001_0000 == caps
        &&& flags & 0x0002_0000 == shift
        &&& flags & 0x0004_0000 == ctrl
        &&& flags & 0x0008_0000 == alt
        &&& flags & 0x0010_0000 == cmd
        &&& flags & !0x001F_0000u64 == 0
    }) by (bit_vector)
        requires
            shift == 0 || shift == 0x0002_0000,
            ctrl == 0 || ctrl == 0x0004_0000,
            alt == 0 || alt == 0x0008_0000,
            cmd == 0 || cmd == 0x0010_0000,
            caps == 0 || caps == 0x0001_0000,
    ;
}

/// What is posted for a key is that key, pressed or released. Its flags are those of the modifiers, with bit
/// 21 besides where the key belongs to the numeric pad.
pub proof fn lemma_posted_key(key: u16, down: bool, modifiers: Modifiers)
    ensures
        key_event(key, down, modifiers) matches Posted::Key { keycode, down: pressed, flags, .. } && {
            &&& keycode == key
            &&& pressed == down
            &&& flags & 0x0020_0000 != 0 <==> numpad(key)
            &&& flags & !0x0020_0000u64 == modifiers.flags()
        },
{
    let flags = modifiers.flags();
    lemma_flag_bits(modifiers);
    assert({
        &&& flags & 0x0020_0000 == 0
        &&& flags & !0x0020_0000u64 == flags
        &&& (flags | 0x0020_0000) & 0x0020_0000 != 0
        &&& (flags | 0x0020_0000) & !0x0020_0000u64 == flags
    }) by (bit_vector)
        requires
            flags & !0x001F_0000u64 == 0,
    ;
}

/// A key that goes down or comes up.
pub struct KeyMove {
    pub key: u16,
    pub down: bool,
}

/// The modifiers once keys have gone down and come up one after the other.
pub open spec fn through(modifiers: Modifiers, moves: Seq<KeyMove>) -> Modifiers
    decreases moves.len(),
{
    if moves.len() == 0 {
        modifiers
    } else {
        through(modifiers, moves.drop_last()).after(moves.last().key, moves.last().down)
    }
}

/// Whether the move of number `i` puts the key down and none after it lets it up.
pub open spec fn down_since(moves: Seq<KeyMove>, key: u16, i: int) -> bool {
    &&& 0 <= i < moves.len()
    &&& moves[i].key == key
    &&& moves[i].down
    &&& forall|j: int| i < j < moves.len() ==> !((#[trigger] moves[j]).key == key && !moves[j].down)
}

/// Whether the key has gone down and has not come up since.
pub open spec fn still_down(moves: Seq<KeyMove>, key: u16) -> bool {
    exists|i: int| #[trigger] down_since(moves, key, i)
}

/// How often the key has gone down.
pub open spec fn presses(moves: Seq<KeyMove>, key: u16) -> nat
    decreases moves.len(),
{
    if moves.len() == 0 {
        0
    } else if moves.last().key == key && moves.last().down {
        presses(moves.drop_last(), key) + 1
    } else {
        presses(moves.drop_last(), key)
    }
}

proof fn lemma_still_down_step(moves: Seq<KeyMove>, key: u16)
    requires
        moves.len() > 0,
    ensures
        still_down(moves, key) == if moves.last().key == key {
            moves.last().down
        } else {
            still_down(moves.drop_last(), key)
        },
{
    let before = moves.drop_last();
    let last = moves.len() - 1;
    if moves.last().key == key && moves.last().down {
        assert(down_since(moves, key, last));
    }
    if still_down(moves, key) {
        let i = choose|i: int| #[trigger] down_since(moves, key, i);
        if moves.last().key == key && !moves.last().down {
            if i < last {
                assert(moves[last].key == key && !moves[last].down);
            }
        }
        if moves.last().key != key {
            assert(i < last);
            assert forall|j: int| i < j < before.len() implies !((#[trigger] before[j]).key == key
                && !before[j].down) by {
                assert(before[j] == moves[j]);
            }
            assert(down_since(before, key, i));
        }
    }
    if moves.last().key != key && still_down(before, key) {
        let i = choose|i: int| #[trigger] down_since(before, key, i);
        assert forall|j: int| i < j < moves.len() implies !((#[trigger] moves[j]).key == key
            && !moves[j].down) by {
            if j < last {
                assert(before[j] == moves[j]);
            }
        }
        assert(down_since(moves, key, i));
    }
}

proof fn lemma_sides(moves: Seq<KeyMove>)
    ensures
        ({
            let m = through(Modifiers::none(), moves);
            &&& m.left_shift == still_down(moves, 0x38)
            &&& m.right_shift == still_down(moves, 0x3C)
            &&& m.left_ctrl == still_down(moves, 0x3B)
            &&& m.right_ctrl == still_down(moves, 0x3E)
            &&& m.left_alt == still_down(moves, 0x3A)
            &&& m.right_alt == still_down(moves, 0x3D)
            &&& m.left_cmd == still_down(moves, 0x37)
            &&& m.right_cmd == still_down(moves, 0x36)
            &&& m.caps_lock == (presses(moves, 0x39) % 2 == 1)
        }),
    decreases moves.len(),
{
    if moves.len() > 0 {
        lemma_sides(moves.drop_last());
        lemma_still_down_step(moves, 0x38);
        lemma_still_down_step(moves, 0x3C);
        lemma_still_down_step(moves, 0x3B);
        lemma_still_down_step(moves, 0x3E);
        lemma_still_down_step(moves, 0x3A);
        lemma_still_down_step(moves, 0x3D);
        lemma_still_down_step(moves, 0x37);
        lemma_still_down_step(moves, 0x36);
    } else {
        assert(forall|key: u16, i: int| !#[trigger] down_since(moves, key, i));
    }
}

/// A modifier counts from its press to its release: whatever keys a client that held nothing has pressed and
/// released, the bit of control is set exactly if one of the two control keys (0x3B and 0x3E) has gone down
/// and not come up since, and so for shift (0x38 and 0x3C), option (0x3A and 0x3D) and command (0x37 and
/// 0x36). Caps lock (0x39) is on after every other press.
pub proof fn lemma_held_modifiers(moves: Seq<KeyMove>)
    ensures
        ({
            let flags = through(Modifiers::none(), moves).flags();
            &&& flags & 0x0001_0000 != 0 <==> presses(moves, 0x39) % 2 == 1
            &&& flags & 0x0002_0000 != 0 <==> still_down(moves, 0x38) || still_down(moves, 0x3C)
            &&& flags & 0x0004_0000 != 0 <==> still_down(moves, 0x3B) || still_down(moves, 0x3E)
            &&& flags & 0x0008_0000 != 0 <==> still_down(moves, 0x3A) || still_down(moves, 0x3D)
            &&& flags & 0x0010_0000 != 0 <==> still_down(moves, 0x37) || still_down(moves, 0x36)
        }),
{
    lemma_sides(moves);
    lemma_flag_bits(through(Modifiers::none(), moves));
}

/// Every key that is posted, and every character, carries the modifiers that are held: after the press of a
/// control key and until its release, the bit of control, whatever happens in between, and so for the
/// others.
pub proof fn lemma_posted_with_held(moves: Seq<KeyMove>, ch: u16)
    requires
        moves.len() > 0,
    ensures
        ({
            let before = through(Modifiers::none(), moves.drop_last());
            let last = moves.last();
            let posted = key_event(last.key, last.down, before.after(last.key, last.down));
            posted matches Posted::Key { keycode, down, flags, .. } && {
                &&& keycode == last.key
                &&& down == last.down
                &&& flags & 0x0001_0000 != 0 <==> presses(moves, 0x39) % 2 == 1
                &&& flags & 0x0002_0000 != 0 <==> still_down(moves, 0x38) || still_down(moves, 0x3C)
                &&& flags & 0x0004_0000 != 0 <==> still_down(moves, 0x3B) || still_down(moves, 0x3E)
                &&& flags & 0x0008_0000 != 0 <==> still_down(moves, 0x3A) || still_down(moves, 0x3D)
                &&& flags & 0x0010_0000 != 0 <==> still_down(moves, 0x37) || still_down(moves, 0x36)
                &&& flags & 0x0020_0000 != 0 <==> numpad(last.key)
                &&& flags & !0x003F_0000u64 == 0
            }
        }),
        ({
            let posted = unicode_events(ch, through(Modifiers::none(), moves));
            &&& posted.len() == 2
            &&& posted[0] matches Posted::Key { keycode, down, flags, unicode } && {
                &&& keycode == 0
                &&& down
                &&& unicode == Some(ch)
                &&& flags & 0x0002_0000 != 0 <==> still_down(moves, 0x38) || still_down(moves, 0x3C)
                &&& flags & 0x0004_0000 != 0 <==> still_down(moves, 0x3B) || still_down(moves, 0x3E)
                &&& flags & 0x0008_0000 != 0 <==> still_down(moves, 0x3A) || still_down(moves, 0x3D)
                &&& flags & 0x0010_0000 != 0 <==> still_down(moves, 0x37) || still_down(moves, 0x36)
            }
            &&& posted[1] matches Posted::Key { keycode, down, flags, unicode } && {
                &&& keycode == 0
                &&& !down
                &&& unicode == Some(ch)
                &&& flags == posted[0]->flags
            }
        }),
{
    let m = through(Modifiers::none(), moves);
    let last = moves.last();
    lemma_held_modifiers(moves);
    lemma_posted_key(last.key, last.down, m);
    lemma_flag_bits(m);
    let held = m.flags();
    if let Posted::Key { flags, .. } = key_event(last.key, last.down, m) {
        assert({
            &&& flags & 0x0001_0000 == held & 0x0001_0000
            &&& flags & 0x0002_0000 == held & 0x0002_0000
            &&& flags & 0x0004_0000 == held & 0x0004_0000
            &&& flags & 0x0008_0000 == held & 0x0008_0000
            &&& flags & 0x0010_0000 == held & 0x0010_0000
            &&& flags & !0x003F_0000u64 == 0
        }) by (bit_vector)
            requires
                flags & !0x0020_0000u64 == held,
                held & !0x001F_0000u64 == 0,
        ;
    }
}

/// A button goes down and comes up where the mouse is: the event that lets it up has the number behind that
/// of the press, and both name the same button and the same place.
pub proof fn lemma_clicks(input: MacInputHandler)
    ensures
        ({
            let position = Position::At { x: input.current_x, y: input.current_y };
            &&& posted_for_mouse(MouseEvent::LeftPressed, input) == Some(
                Posted::Mouse { event_type: 1, button: 0, position },
            )
            &&& posted_for_mouse(MouseEvent::LeftReleased, input) == Some(
                Posted::Mouse { event_type: 2, button: 0, position },
            )
            &&& posted_for_mouse(MouseEvent::RightPressed, input) == Some(
                Posted::Mouse { event_type: 3, button: 1, position },
            )
            &&& posted_for_mouse(MouseEvent::RightReleased, input) == Some(
                Posted::Mouse { event_type: 4, button: 1, position },
            )
            &&& posted_for_mouse(MouseEvent::MiddlePressed, input) == Some(
                Posted::Mouse { event_type: 25, button: 2, position },
            )
            &&& posted_for_mouse(MouseEvent::MiddleReleased, input) == Some(
                Posted::Mouse { event_type: 26, button: 2, position },
            )
        }),
{
}

/// Moving the mouse drags with the button that is down, the left one before the right and the right one
/// before the middle one, and else only moves. It is posted where the mouse has moved, wherever it was.
pub proof fn lemma_drags(input: MacInputHandler, x: i32, y: i32)
    ensures
        posted_for_mouse(MouseEvent::Moved { x, y }, input) matches Some(
            Posted::Mouse { event_type, button, position },
        ) && {
            &&& position == Position::Moved
            &&& input.left_down ==> event_type == 6 && button == 0
            &&& !input.left_down && input.right_down ==> event_type == 7 && button == 1
            &&& !input.left_down && !input.right_down && input.middle_down ==> event_type == 27
                && button == 2
            &&& !input.left_down && !input.right_down && !input.middle_down ==> event_type == 5
        },
{
}

/// A turn of the wheel scrolls a line for every forty parts of it, in its own direction, and leaves less than
/// a line over; turned the other way it scrolls as far back.
pub proof fn lemma_scrolled(value: i16)
    ensures
        -40 < value - 40 * scroll_lines(value) < 40,
        value >= 0 ==> scroll_lines(value) >= 0 && 40 * scroll_lines(value) <= value,
        value <= 0 ==> scroll_lines(value) <= 0 && 40 * scroll_lines(value) >= value,
        value > i16::MIN ==> scroll_lines((-value) as i16) == -scroll_lines(value),
{
}

/// The end of a session lets up exactly the buttons that are down, where the mouse is.
pub proof fn lemma_buttons_let_go(input: MacInputHandler)
    ensures
        ({
            let position = Position::At { x: input.current_x, y: input.current_y };
            let posted = button_releases(input);
            &&& posted.contains(Posted::Mouse { event_type: 2, button: 0, position }) <==> input.left_down
            &&& posted.contains(Posted::Mouse { event_type: 4, button: 1, position })
                <==> input.right_down
            &&& posted.contains(Posted::Mouse { event_type: 26, button: 2, position })
                <==> input.middle_down
            &&& posted.len() == (if input.left_down {
                1int
            } else {
                0
            }) + (if input.right_down {
                1int
            } else {
                0
            }) + (if input.middle_down {
                1int
            } else {
                0
            })
        }),
{
    let position = Position::At { x: input.current_x, y: input.current_y };
    let posted = button_releases(input);
    let left = Posted::Mouse { event_type: 2, button: 0, position };
    let right = Posted::Mouse { event_type: 4, button: 1, position };
    let middle = Posted::Mouse { event_type: 26, button: 2, position };
    let l: int = if input.left_down {
        1
    } else {
        0
    };
    let r: int = if input.right_down {
        1
    } else {
        0
    };
    if input.left_down {
        assert(posted[0] == left);
    }
    if input.right_down {
        assert(posted[l] == right);
    }
    if input.middle_down {
        assert(posted[l + r] == middle);
    }
}

/// A key is let go only when it is stuck, and then it is. With `idle_ms` milliseconds since the last input of
/// any kind, an ordinary key is stuck a second and a half after it was last pressed or repeated, a modifier
/// fifteen seconds after it was pressed, or five seconds after the last input.
pub proof fn lemma_stuck(held: Map<u16, KeyState>, now: u64, idle_ms: u64, key: u16)
    requires
        held.contains_key(key),
    ensures
        swept(held, Sweep::Stuck { now, idle_ms }).contains(key) <==> if held[key].is_modifier {
            idle_ms > 5_000 || now > held[key].first_pressed + 15_000_000_000
        } else {
            now > held[key].last_event + 1_500_000_000
        },
        left_held(held, Sweep::Stuck { now, idle_ms }).contains_key(key) <==> !swept(
            held,
            Sweep::Stuck { now, idle_ms },
        ).contains(key),
        left_held(held, Sweep::Stuck { now, idle_ms }).contains_key(key) ==> left_held(
            held,
            Sweep::Stuck { now, idle_ms },
        )[key] == held[key],
{
}

/// Letting go of modifiers takes them off the flags one by one: to let go of several is to let go of each,
/// in any order, and to let go of one is its release.
pub proof fn lemma_let_go(modifiers: Modifiers, keys: Set<u16>, key: u16)
    ensures
        without(modifiers, Set::empty()) == modifiers,
        without(modifiers, keys.insert(key)) == without(modifiers, keys).with(key, false),
        without(modifiers, keys.insert(key)) == without(modifiers.with(key, false), keys),
{
}

/// A key of a client that goes down or comes up at a moment, and what was posted for it.
pub struct Typing {
    pub code: u8,
    pub extended: bool,
    pub down: bool,
    pub now: u64,
    pub now_ms: u64,
    pub posted: Seq<Posted>,
}

impl Typing {
    /// What the keyboard does.
    pub open spec fn event(self) -> KeyboardEvent {
        if self.down {
            KeyboardEvent::Pressed { code: self.code, extended: self.extended }
        } else {
            KeyboardEvent::Released { code: self.code, extended: self.extended }
        }
    }
}

/// The keys of the Mac that go down and come up.
pub open spec fn key_moves(typing: Seq<Typing>) -> Seq<KeyMove> {
    Seq::new(
        typing.len(),
        |i: int| KeyMove { key: mac_key(typing[i].code, typing[i].extended), down: typing[i].down },
    )
}

/// Whether the client, which held nothing at first, has typed this: `states` are what it was before each key
/// and after the last.
pub open spec fn typed_through(states: Seq<MacInputHandler>, typing: Seq<Typing>) -> bool {
    &&& states.len() == typing.len() + 1
    &&& states[0].at_rest()
    &&& forall|i: int|
        0 <= i < typing.len() ==> (#[trigger] states[i + 1]).typed(
            states[i],
            typing[i].event(),
            typing[i].now,
            typing[i].now_ms,
            typing[i].posted,
        )
}

proof fn lemma_typed_modifiers(states: Seq<MacInputHandler>, typing: Seq<Typing>, n: int)
    requires
        typed_through(states, typing),
        0 <= n <= typing.len(),
    ensures
        states[n].modifiers == through(Modifiers::none(), key_moves(typing).take(n)),
        forall|key: u16| #[trigger]
            states[n].pressed_keys@.contains_key(key) <==> still_down(key_moves(typing).take(n), key),
    decreases n,
{
    let moves = key_moves(typing);
    if n > 0 {
        lemma_typed_modifiers(states, typing, n - 1);
        let k = n - 1;
        assert(states[k + 1].typed(
            states[k],
            typing[k].event(),
            typing[k].now,
            typing[k].now_ms,
            typing[k].posted,
        ));
        assert(moves.take(n).drop_last() =~= moves.take(k));
        assert forall|key: u16| #[trigger] states[n].pressed_keys@.contains_key(key) <==> still_down(
            moves.take(n),
            key,
        ) by {
            lemma_still_down_step(moves.take(n), key);
            assert(states[k].pressed_keys@.contains_key(key) <==> still_down(moves.take(k), key));
        }
    } else {
        assert(forall|key: u16, i: int| !#[trigger] down_since(moves.take(0), key, i));
    }
}

/// What a client types arrives: for every key that it presses or releases one event is posted, of the key of
/// the Mac that its scan code stands for, and with the modifiers that are then held: the bit of control while
/// a control key is down, and so for shift, option and command, and that of caps lock after every other press
/// of it. A key is held exactly from its press to its release.
pub proof fn lemma_typing_arrives(states: Seq<MacInputHandler>, typing: Seq<Typing>, n: int)
    requires
        typed_through(states, typing),
        0 <= n < typing.len(),
    ensures
        ({
            let moves = key_moves(typing).take(n + 1);
            &&& typing[n].posted.len() == 1
            &&& typing[n].posted[0] matches Posted::Key { keycode, down, flags, .. } && {
                &&& keycode == mac_key(typing[n].code, typing[n].extended)
                &&& down == typing[n].down
                &&& flags & 0x0001_0000 != 0 <==> presses(moves, 0x39) % 2 == 1
                &&& flags & 0x0002_0000 != 0 <==> still_down(moves, 0x38) || still_down(moves, 0x3C)
                &&& flags & 0x0004_0000 != 0 <==> still_down(moves, 0x3B) || still_down(moves, 0x3E)
                &&& flags & 0x0008_0000 != 0 <==> still_down(moves, 0x3A) || still_down(moves, 0x3D)
                &&& flags & 0x0010_0000 != 0 <==> still_down(moves, 0x37) || still_down(moves, 0x36)
                &&& flags & 0x0020_0000 != 0 <==> numpad(keycode)
                &&& flags & !0x003F_0000u64 == 0
            }
            &&& forall|key: u16| #[trigger]
                states[n + 1].pressed_keys@.contains_key(key) <==> still_down(moves, key)
        }),
{
    let moves = key_moves(typing).take(n + 1);
    lemma_typed_modifiers(states, typing, n);
    lemma_typed_modifiers(states, typing, n + 1);
    assert(states[n + 1].typed(
        states[n],
        typing[n].event(),
        typing[n].now,
        typing[n].now_ms,
        typing[n].posted,
    ));
    assert(moves.drop_last() =~= key_moves(typing).take(n));
    lemma_posted_with_held(moves, 0);
}

/// Since when a key has been held is kept while it is repeated: it counts from its first press, and the last
/// repetition is noted.
pub proof fn lemma_repeated(
    before: MacInputHandler,
    after: MacInputHandler,
    code: u8,
    extended: bool,
    now: u64,
    now_ms: u64,
    posted: Seq<Posted>,
)
    requires
        before.wf(),
        after.typed(before, KeyboardEvent::Pressed { code, extended }, now, now_ms, posted),
    ensures
        ({
            let key = mac_key(code, extended);
            &&& after.pressed_keys@.contains_key(key)
            &&& after.pressed_keys@[key].last_event == now
            &&& after.pressed_keys@[key].first_pressed == if before.pressed_keys@.contains_key(key) {
                before.pressed_keys@[key].first_pressed
            } else {
                now
            }
            &&& after.pressed_keys@[key].is_modifier == modifier(key)
            &&& after.last_global_input == now_ms
            &&& forall|other: u16|
                other != key ==> (#[trigger] after.pressed_keys@.contains_key(other)
                    <==> before.pressed_keys@.contains_key(other))
        }),
{
}

/// A look at the keys lets each stuck one go: a key-up event of it is posted, it is held no longer, and a
/// modifier among them no longer counts. Other keys, and the mouse, stay as they are.
pub proof fn lemma_watched(
    before: MacInputHandler,
    after: MacInputHandler,
    now: u64,
    now_ms: u64,
    posted: Seq<Posted>,
    key: u16,
)
    requires
        before.wf(),
        after.watched(before, now, now_ms, posted),
        before.pressed_keys@.contains_key(key),
        now_ms >= before.last_global_input,
    ensures
        ({
            let state = before.pressed_keys@[key];
            let stuck = if modifier(key) {
                now_ms - before.last_global_input > 5_000 || now > state.first_pressed + 15_000_000_000
            } else {
                now > state.last_event + 1_500_000_000
            };
            &&& stuck <==> !after.pressed_keys@.contains_key(key)
            &&& stuck ==> posted.contains(
                Posted::Key { keycode: key, down: false, flags: 0, unicode: None },
            )
            &&& posted.contains(Posted::Key { keycode: key, down: false, flags: 0, unicode: None })
                ==> stuck
            &&& stuck ==> after.modifiers.with(key, false) == after.modifiers
            &&& after.left_down == before.left_down
        }),
{
    let how = Sweep::Stuck { now, idle_ms: since(now_ms, before.last_global_input) as u64 };
    let gone = swept(before.pressed_keys@, how);
    lemma_stuck(before.pressed_keys@, now, since(now_ms, before.last_global_input) as u64, key);
    if gone.contains(key) {
        let i = choose|i: int| 0 <= i < posted.len() && #[trigger] posted[i] == key_up(key);
        assert(posted.contains(key_up(key)));
    }
    if posted.contains(key_up(key)) {
        let i = choose|i: int| 0 <= i < posted.len() && posted[i] == key_up(key);
        assert(posted[i] == key_up(key));
        assert(gone.contains(key));
    }
}

/// What the mouse of a client does at a moment, and what was posted for it.
pub struct Mousing {
    pub event: MouseEvent,
    pub now_ms: u64,
    pub posted: Option<Posted>,
}

/// Whether the client has done this with the mouse: `states` are what it was before each event and after the
/// last.
pub open spec fn moused_through(states: Seq<MacInputHandler>, mousing: Seq<Mousing>) -> bool {
    &&& states.len() == mousing.len() + 1
    &&& forall|i: int|
        0 <= i < mousing.len() ==> (#[trigger] states[i + 1]).moused(
            states[i],
            mousing[i].event,
            mousing[i].now_ms,
            mousing[i].posted,
        )
}

proof fn lemma_mouse_kept(states: Seq<MacInputHandler>, mousing: Seq<Mousing>, from: int, to: int)
    requires
        moused_through(states, mousing),
        0 <= from <= to <= mousing.len(),
    ensures
        (forall|k: int| from <= k < to ==> !((#[trigger] mousing[k]).event is Moved)) ==> states[to].current_x
            == states[from].current_x && states[to].current_y == states[from].current_y,
        (forall|k: int|
            from <= k < to ==> !((#[trigger] mousing[k]).event is LeftReleased)) && states[from].left_down
            ==> states[to].left_down,
        states[to].modifiers == states[from].modifiers,
        states[to].pressed_keys == states[from].pressed_keys,
    decreases to - from,
{
    if from < to {
        lemma_mouse_kept(states, mousing, from, to - 1);
        let k = to - 1;
        assert(states[k + 1].moused(states[k], mousing[k].event, mousing[k].now_ms, mousing[k].posted));
        if forall|k: int| from <= k < to ==> !((#[trigger] mousing[k]).event is Moved) {
            assert(!(mousing[to - 1].event is Moved));
        }
        if forall|k: int| from <= k < to ==> !((#[trigger] mousing[k]).event is LeftReleased) {
            assert(!(mousing[to - 1].event is LeftReleased));
        }
    }
}

/// A click falls where the mouse last moved, whatever it did since: each of its buttons is posted there.
pub proof fn lemma_click_where_moved(
    states: Seq<MacInputHandler>,
    mousing: Seq<Mousing>,
    moved: int,
    n: int,
    x: i32,
    y: i32,
)
    requires
        moused_through(states, mousing),
        0 <= moved < n < mousing.len(),
        mousing[moved].event == (MouseEvent::Moved { x, y }),
        forall|k: int| moved < k < n ==> !((#[trigger] mousing[k]).event is Moved),
    ensures
        ({
            let position = Position::At { x, y };
            let posted = mousing[n].posted;
            &&& mousing[n].event is LeftPressed ==> posted == Some(
                Posted::Mouse { event_type: 1, button: 0, position },
            )
            &&& mousing[n].event is LeftReleased ==> posted == Some(
                Posted::Mouse { event_type: 2, button: 0, position },
            )
            &&& mousing[n].event is RightPressed ==> posted == Some(
                Posted::Mouse { event_type: 3, button: 1, position },
            )
            &&& mousing[n].event is RightReleased ==> posted == Some(
                Posted::Mouse { event_type: 4, button: 1, position },
            )
            &&& mousing[n].event is MiddlePressed ==> posted == Some(
                Posted::Mouse { event_type: 25, button: 2, position },
            )
            &&& mousing[n].event is MiddleReleased ==> posted == Some(
                Posted::Mouse { event_type: 26, button: 2, position },
            )
        }),
{
    assert(states[moved + 1].moused(
        states[moved],
        mousing[moved].event,
        mousing[moved].now_ms,
        mousing[moved].posted,
    ));
    lemma_mouse_kept(states, mousing, moved + 1, n);
    assert(states[n + 1].moused(states[n], mousing[n].event, mousing[n].now_ms, mousing[n].posted));
    lemma_clicks(states[n]);
}

/// From the press of the left button to its release every move of the mouse drags, whatever else happens in
/// between.
pub proof fn lemma_drag_from_press(
    states: Seq<MacInputHandler>,
    mousing: Seq<Mousing>,
    pressed: int,
    n: int,
)
    requires
        moused_through(states, mousing),
        0 <= pressed < n < mousing.len(),
        mousing[pressed].event is LeftPressed,
        forall|k: int| pressed < k < n ==> !((#[trigger] mousing[k]).event is LeftReleased),
        mousing[n].event is Moved,
    ensures
        mousing[n].posted == Some(
            Posted::Mouse { event_type: 6, button: 0, position: Position::Moved },
        ),
{
    assert(states[pressed + 1].moused(
        states[pressed],
        mousing[pressed].event,
        mousing[pressed].now_ms,
        mousing[pressed].posted,
    ));
    lemma_mouse_kept(states, mousing, pressed + 1, n);
    assert(states[n + 1].moused(states[n], mousing[n].event, mousing[n].now_ms, mousing[n].posted));
}

} // verus!
